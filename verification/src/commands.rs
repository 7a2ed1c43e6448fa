//! Event commands and the command viewer's skipping rule.
//!
//! An event page is a flat list of commands in which `Conditional`, `Else`
//! and `Loop` open a nested block and `Break` closes the innermost open
//! block.  When the viewer collapses a block it skips forward to the position
//! just past the `Break` that closes it.

use vstd::prelude::*;

verus! {

/// One event command kind, as the viewer distinguishes them.
pub enum CommandKind {
    /// Closes the innermost open block.
    Break,
    Text { text: String },
    TextExt { text: String },
    /// Opens a block.
    Conditional,
    /// Opens a block.
    Else,
    /// Opens a block.
    Loop,
    Comment { text: String },
    CommentExt { text: String },
    /// A command id the viewer does not recognize.
    Invalid { code: u16 },
}

impl CommandKind {
    pub fn is_break(&self) -> (r: bool)
        ensures
            r == (*self is Break),
    {
        match self {
            CommandKind::Break => true,
            _ => false,
        }
    }

    pub fn is_else(&self) -> (r: bool)
        ensures
            r == (*self is Else),
    {
        match self {
            CommandKind::Else => true,
            _ => false,
        }
    }

    /// Whether this command opens a nested block.
    pub fn opens_block(&self) -> (r: bool)
        ensures
            r == spec_opens_block(*self),
    {
        match self {
            CommandKind::Conditional => true,
            CommandKind::Else => true,
            CommandKind::Loop => true,
            _ => false,
        }
    }
}

pub open spec fn spec_opens_block(k: CommandKind) -> bool {
    k is Conditional || k is Else || k is Loop
}

/// One event command: its indentation level and its kind.
pub struct Command {
    pub indent: usize,
    pub kind: CommandKind,
}

/// The position just past the `Break` that closes the block open at `i` with
/// `depth` blocks nested inside it; the end of the list if no such `Break`
/// exists.
pub open spec fn spec_break_until(cmds: Seq<Command>, i: int, depth: int) -> int
    decreases cmds.len() - i,
{
    if i < 0 || i >= cmds.len() {
        cmds.len() as int
    } else if cmds[i].kind is Break {
        if depth <= 0 {
            i + 1
        } else {
            spec_break_until(cmds, i + 1, depth - 1)
        }
    } else if spec_opens_block(cmds[i].kind) {
        spec_break_until(cmds, i + 1, depth + 1)
    } else {
        spec_break_until(cmds, i + 1, depth)
    }
}

/// An event command viewer over one command list.
pub struct CommandView {
    pub commands: Vec<Command>,
}

impl CommandView {
    /// Create a new command viewer.
    pub fn new(commands: Vec<Command>) -> (r: Self)
        ensures
            r.commands == commands,
    {
        CommandView { commands }
    }

    /// Skips forward from `start` to just past the `Break` that closes the
    /// block open there, stepping over nested blocks and their own breaks; if
    /// no such `Break` follows, skips to the end of the list.
    pub fn break_until(&self, start: usize) -> (r: usize)
        ensures
            r as int == spec_break_until(self.commands@, start as int, 0),
            r <= self.commands@.len(),
    {
        let n = self.commands.len();
        let mut i: usize = start;
        let mut depth: usize = 0;
        while i < n
            invariant
                n == self.commands@.len(),
                start <= i,
                spec_break_until(self.commands@, start as int, 0) == spec_break_until(
                    self.commands@,
                    i as int,
                    depth as int,
                ),
                depth <= i,
            decreases n - i,
        {
            let opens = self.commands[i].kind.opens_block();
            if self.commands[i].kind.is_break() {
                if depth == 0 {
                    return i + 1;
                }
                depth = depth - 1;
            } else if opens {
                depth = depth + 1;
            }
            i = i + 1;
        }
        n
    }
}

/// The skip target never moves backwards and never leaves the list.
pub proof fn lemma_break_until_bounds(cmds: Seq<Command>, i: int, depth: int)
    requires
        0 <= i <= cmds.len(),
    ensures
        i < spec_break_until(cmds, i, depth) <= cmds.len() || (i == cmds.len()
            && spec_break_until(cmds, i, depth) == cmds.len()),
    decreases cmds.len() - i,
{
    if i < cmds.len() {
        if cmds[i].kind is Break {
            if depth > 0 {
                lemma_break_until_bounds(cmds, i + 1, depth - 1);
            }
        } else if spec_opens_block(cmds[i].kind) {
            lemma_break_until_bounds(cmds, i + 1, depth + 1);
        } else {
            lemma_break_until_bounds(cmds, i + 1, depth);
        }
    }
}

} // verus!
