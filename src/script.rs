//! The script interpreter: a line-oriented stack language. A line with
//! uppercase letters names an action by shortcut; any other line is a list
//! of white-space separated commands: an integer is pushed, `=` pops two
//! values and opens a block when they are equal (and skips to the next `.`
//! otherwise), and `.` closes a block. Text after `#` is a comment.
//!
//! The interpreter does not run actions itself: [`Interpreter::run_line`]
//! names the action to invoke, and the caller hands the outcome back through
//! [`Interpreter::record_result`].

use vstd::prelude::*;
use crate::registry::{Action, find_action, first_with, has_shortcut, shortcuts};
use crate::text::{
    code_part, derive_shortcut, lemma_words_len, parse_i32, parsed_i32, shortcut_of,
    split_whitespace, strip_comment, words,
};

verus! {

/// A problem met while running a script. None of them stops the script.
#[derive(Debug, PartialEq, Eq)]
pub enum ScriptError {
    /// A value was popped from an empty stack; `0` was used in its place.
    StackEmpty { line: i32, command: i32 },
    /// A `.` closed a block when none was open.
    UnexpectedEndOfBlock { line: i32, command: i32 },
    /// An action line named a shortcut that no action has.
    ShortcutNotFound { shortcut: String, line: i32 },
}

/// The value stack of a script run, with the problems reported so far.
#[derive(Debug)]
pub struct Stack {
    pub contents: Vec<i32>,
    pub errors: Vec<ScriptError>,
}

impl Stack {
    /// An empty stack with no problems reported.
    pub fn new() -> (r: Self)
        ensures
            r.contents@.len() == 0,
            r.errors@.len() == 0,
    {
        Stack { contents: Vec::new(), errors: Vec::new() }
    }

    /// Pushes a value.
    pub fn push(&mut self, value: i32)
        ensures
            final(self).contents@ == old(self).contents@.push(value),
            final(self).errors@ == old(self).errors@,
    {
        self.contents.push(value);
    }

    /// Pops the top value. On an empty stack it reports the line and the
    /// command and yields `0`.
    pub fn pop(&mut self, line_number: i32, command_number: i32) -> (r: i32)
        ensures
            old(self).contents@.len() > 0 ==> {
                &&& r == old(self).contents@.last()
                &&& final(self).contents@ == old(self).contents@.drop_last()
                &&& final(self).errors@ == old(self).errors@
            },
            old(self).contents@.len() == 0 ==> {
                &&& r == 0
                &&& final(self).contents@ == old(self).contents@
                &&& final(self).errors@ == old(self).errors@.push(
                    ScriptError::StackEmpty { line: line_number, command: command_number },
                )
            },
    {
        match self.contents.pop() {
            Some(value) => value,
            None => {
                self.errors.push(ScriptError::StackEmpty { line: line_number, command: command_number });
                0
            },
        }
    }
}

/// The state of a script run, as values.
pub struct ScriptView {
    pub stack: Seq<i32>,
    pub blocks: nat,
    pub skipping: bool,
    pub errors: Seq<ScriptError>,
}

/// Pops a value from the modelled stack: the top value, or `0` with a report.
pub open spec fn pop_value(st: ScriptView, line: i32, pos: i32) -> (ScriptView, i32) {
    if st.stack.len() == 0 {
        (
            ScriptView {
                errors: st.errors.push(ScriptError::StackEmpty { line, command: pos }),
                ..st
            },
            0,
        )
    } else {
        (ScriptView { stack: st.stack.drop_last(), ..st }, st.stack.last())
    }
}

/// One command of a control line, at 1-based position `pos` of line `line`.
/// While skipping, only a `.` matters: it ends the skip.
pub open spec fn step_command(st: ScriptView, tok: Seq<char>, line: i32, pos: i32) -> ScriptView {
    if st.skipping {
        if tok == seq!['.'] {
            ScriptView { skipping: false, ..st }
        } else {
            st
        }
    } else {
        match parsed_i32(tok) {
            Some(n) => ScriptView { stack: st.stack.push(n), ..st },
            None => if tok == seq!['.'] {
                if st.blocks == 0 {
                    ScriptView {
                        errors: st.errors.push(ScriptError::UnexpectedEndOfBlock { line, command: pos }),
                        ..st
                    }
                } else {
                    ScriptView { blocks: (st.blocks - 1) as nat, ..st }
                }
            } else if tok == seq!['='] {
                let (s1, a) = pop_value(st, line, pos);
                let (s2, b) = pop_value(s1, line, pos);
                if a == b {
                    ScriptView { blocks: s2.blocks + 1, ..s2 }
                } else {
                    ScriptView { skipping: true, ..s2 }
                }
            } else {
                st
            },
        }
    }
}

/// The commands of a control line, run in order; the `k`-th (from 1) is at
/// position `k`.
pub open spec fn run_commands(st: ScriptView, toks: Seq<Seq<char>>, line: i32) -> ScriptView
    decreases toks.len(),
{
    if toks.len() == 0 {
        st
    } else {
        step_command(run_commands(st, toks.drop_last(), line), toks.last(), line, toks.len() as i32)
    }
}

/// The shortcut that a script line names: the uppercase letters of the part
/// before its comment. A line whose shortcut is empty is a control line.
pub open spec fn line_shortcut(line: Seq<char>) -> Seq<char> {
    shortcut_of(code_part(line))
}

/// A script run in progress.
#[derive(Debug)]
pub struct Interpreter {
    pub stack: Stack,
    pub blocks: usize,
    pub skipping: bool,
}

impl View for Interpreter {
    type V = ScriptView;

    open spec fn view(&self) -> ScriptView {
        ScriptView {
            stack: self.stack.contents@,
            blocks: self.blocks as nat,
            skipping: self.skipping,
            errors: self.stack.errors@,
        }
    }
}

fn is_symbol(tok: &str, c: char) -> (r: bool)
    ensures
        r == (tok@ == seq![c]),
{
    if tok.unicode_len() == 1 {
        let first = tok.get_char(0);
        assert(first == c ==> tok@ =~= seq![c]);
        first == c
    } else {
        false
    }
}

impl Interpreter {
    /// A fresh run: empty stack, no open block, executing.
    pub fn new() -> (r: Self)
        ensures
            r@.stack.len() == 0,
            r@.blocks == 0,
            !r@.skipping,
            r@.errors.len() == 0,
    {
        Interpreter { stack: Stack::new(), blocks: 0, skipping: false }
    }

    /// Runs one command of a control line.
    pub fn step_command(&mut self, tok: &str, line: i32, pos: i32)
        requires
            old(self).blocks < usize::MAX,
        ensures
            final(self)@ == step_command(old(self)@, tok@, line, pos),
    {
        if self.skipping {
            if is_symbol(tok, '.') {
                self.skipping = false;
            }
            return;
        }
        match parse_i32(tok) {
            Some(n) => self.stack.push(n),
            None => {
                if is_symbol(tok, '.') {
                    if self.blocks == 0 {
                        self.stack.errors.push(
                            ScriptError::UnexpectedEndOfBlock { line, command: pos },
                        );
                    } else {
                        self.blocks = self.blocks - 1;
                    }
                } else if is_symbol(tok, '=') {
                    let a = self.stack.pop(line, pos);
                    let b = self.stack.pop(line, pos);
                    if a == b {
                        self.blocks = self.blocks + 1;
                    } else {
                        self.skipping = true;
                    }
                }
            },
        }
    }

    /// Runs one line of a script, numbered `line_number` from 1. Returns the
    /// position of the action to invoke when the line is an action line met
    /// while executing; the caller then invokes it and hands its outcome to
    /// [`Interpreter::record_result`]. A shortcut that no action has is
    /// reported; while skipping, action lines do nothing.
    pub fn run_line<C>(&mut self, actions: &Vec<Action<C>>, line: &str, line_number: i32) -> (r:
        Option<usize>)
        requires
            line@.len() < i32::MAX,
            old(self).blocks + line@.len() <= usize::MAX,
        ensures
            line_shortcut(line@).len() > 0 ==> {
                let sc = line_shortcut(line@);
                if old(self)@.skipping {
                    r is None && final(self)@ == old(self)@
                } else if has_shortcut(shortcuts(actions@), sc) {
                    &&& r matches Some(i) && first_with(shortcuts(actions@), sc, i as int)
                    &&& final(self)@ == old(self)@
                } else {
                    &&& r is None
                    &&& final(self)@.stack == old(self)@.stack
                    &&& final(self)@.blocks == old(self)@.blocks
                    &&& final(self)@.skipping == old(self)@.skipping
                    &&& final(self)@.errors.len() == old(self)@.errors.len() + 1
                    &&& final(self)@.errors.drop_last() == old(self)@.errors
                    &&& final(self)@.errors.last() matches ScriptError::ShortcutNotFound {
                        shortcut,
                        line,
                    } && shortcut@ == sc && line == line_number
                }
            },
            line_shortcut(line@).len() == 0 ==> {
                &&& r is None
                &&& final(self)@ == run_commands(old(self)@, words(code_part(line@)), line_number)
            },
    {
        let code = strip_comment(line);
        let shortcut = derive_shortcut(code);
        if shortcut.as_str().unicode_len() > 0 {
            if self.skipping {
                return None;
            }
            let found = find_action(actions, &shortcut);
            if found.is_none() {
                self.stack.errors.push(ScriptError::ShortcutNotFound { shortcut, line: line_number });
            }
            return found;
        }
        let toks = split_whitespace(code);
        let ghost ws = words(code@);
        let ghost start = self@;
        proof {
            lemma_words_len(code@);
            assert(toks@.len() == ws.len());
        }
        let mut k: usize = 0;
        while k < toks.len()
            invariant
                ws == words(code@),
                toks@.map_values(|w: String| w@) == ws,
                k <= toks@.len(),
                toks@.len() <= code@.len(),
                code@.len() <= line@.len(),
                line@.len() < i32::MAX,
                start.blocks + line@.len() <= usize::MAX,
                self.blocks <= start.blocks + k,
                self@ == run_commands(start, ws.subrange(0, k as int), line_number),
            decreases toks@.len() - k,
        {
            assert(ws[k as int] == toks@[k as int]@);
            assert(ws.subrange(0, k + 1).drop_last() =~= ws.subrange(0, k as int));
            self.step_command(toks[k].as_str(), line_number, (k + 1) as i32);
            k = k + 1;
        }
        assert(ws.subrange(0, k as int) =~= ws);
        None
    }

    /// Hands back the outcome of the action that [`Interpreter::run_line`]
    /// named: `1` is pushed when it applied, `0` when it did not.
    pub fn record_result(&mut self, applied: bool)
        ensures
            final(self)@ == (ScriptView {
                stack: old(self)@.stack.push(if applied { 1i32 } else { 0i32 }),
                ..old(self)@
            }),
    {
        self.stack.push(if applied { 1 } else { 0 });
    }
}

} // verus!
