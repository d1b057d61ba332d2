//! A line-editing command buffer: a history of entered commands, the line
//! being edited, and a cursor, counted in characters.
//!
//! Reading and saving a history file is input/output and belongs to the
//! caller; the buffer itself starts empty.

use vstd::prelude::*;

verus! {

use vstd::string::StrSliceExecFns;
use vstd::string::StringExecFns;

/// The abstract value of the command buffer.
pub struct TerminalView {
    /// Every line: the history and, last, the line being edited.
    pub lines: Seq<Seq<char>>,
    /// Which line the cursor sits in.
    pub position: int,
    /// The cursor, as a character index into the current line.
    pub cursor: int,
    /// How many committed commands were not yet taken.
    pub unprocessed: int,
}

impl TerminalView {
    /// The buffer invariant: at least the line being edited exists, the
    /// selected line and the cursor stay in range, and the untaken
    /// commands all sit before the final line.
    pub open spec fn wf(self) -> bool {
        &&& self.lines.len() >= 1
        &&& 0 <= self.position < self.lines.len()
        &&& 0 <= self.cursor <= self.lines[self.position].len()
        &&& 0 <= self.unprocessed < self.lines.len()
    }

    pub open spec fn current(self) -> Seq<char> {
        self.lines[self.position]
    }
}

/// The command buffer of the listing's command line.
#[derive(Debug)]
pub struct Terminal {
    commands: Vec<String>,
    commands_unprocessed: usize,
    command_position: usize,
    cursor_position: usize,
}

impl View for Terminal {
    type V = TerminalView;

    closed spec fn view(&self) -> TerminalView {
        TerminalView {
            lines: Seq::new(self.commands@.len(), |i: int| self.commands@[i]@),
            position: self.command_position as int,
            cursor: self.cursor_position as int,
            unprocessed: self.commands_unprocessed as int,
        }
    }
}

impl Terminal {
    /// A fresh buffer: one empty line, nothing committed.
    pub fn new() -> (r: Terminal)
        ensures
            r@.wf(),
            r@.lines == seq![Seq::<char>::empty()],
            r@.position == 0,
            r@.cursor == 0,
            r@.unprocessed == 0,
    {
        let mut commands: Vec<String> = Vec::new();
        commands.push(String::new());
        let r = Terminal {
            commands,
            commands_unprocessed: 0,
            command_position: 0,
            cursor_position: 0,
        };
        proof {
            assert(r@.lines =~= seq![Seq::<char>::empty()]);
        }
        r
    }

    /// A buffer whose history was already read by the caller; editing
    /// starts on a fresh final line.
    pub fn with_history(history: Vec<String>) -> (r: Terminal)
        ensures
            r@.wf(),
            r@.lines == Seq::new(history@.len(), |i: int| history@[i]@).push(Seq::<char>::empty()),
            r@.position == r@.lines.len() - 1,
            r@.cursor == 0,
            r@.unprocessed == 0,
    {
        let mut commands = history;
        let ghost given = Seq::new(commands@.len(), |i: int| commands@[i]@);
        commands.push(String::new());
        let position = commands.len() - 1;
        let r = Terminal {
            commands,
            commands_unprocessed: 0,
            command_position: position,
            cursor_position: 0,
        };
        proof {
            assert(r@.lines =~= given.push(Seq::<char>::empty()));
        }
        r
    }

    /// The line the cursor sits in.
    pub fn current_line(&self) -> (r: &String)
        requires
            self@.wf(),
        ensures
            r@ == self@.current(),
    {
        &self.commands[self.command_position]
    }

    /// The cursor, as a character index into the current line.
    pub fn cursor(&self) -> (r: usize)
        ensures
            r == self@.cursor,
    {
        self.cursor_position
    }

    /// Empties the current line and rests the cursor at its start.
    pub fn reset_line(&mut self)
        requires
            old(self)@.wf(),
        ensures
            final(self)@.wf(),
            final(self)@.lines == old(self)@.lines.update(old(self)@.position, Seq::<char>::empty()),
            final(self)@.position == old(self)@.position,
            final(self)@.cursor == 0,
            final(self)@.unprocessed == old(self)@.unprocessed,
    {
        self.cursor_position = 0;
        self.commands[self.command_position] = String::new();
        proof {
            assert(final(self)@.lines =~= old(self)@.lines.update(
                old(self)@.position,
                Seq::<char>::empty(),
            ));
        }
    }

    /// Steps to the next (newer) command, resting the cursor at its end.
    pub fn scroll_to_next_cmd(&mut self)
        requires
            old(self)@.wf(),
        ensures
            final(self)@.wf(),
            final(self)@.lines == old(self)@.lines,
            final(self)@.unprocessed == old(self)@.unprocessed,
            old(self)@.position == old(self)@.lines.len() - 1 ==> final(self)@ == old(self)@,
            old(self)@.position < old(self)@.lines.len() - 1 ==> final(self)@.position == old(self)@.position + 1 && final(self)@.cursor == final(self)@.current().len(),
    {
        if self.command_position != self.commands.len() - 1 {
            self.command_position = self.command_position + 1;
            self.cursor_position = self.commands[self.command_position].as_str().unicode_len();
        }
    }

    /// Steps to the previous (older) command, resting the cursor at its
    /// end.
    pub fn scroll_to_prev_cmd(&mut self)
        requires
            old(self)@.wf(),
        ensures
            final(self)@.wf(),
            final(self)@.lines == old(self)@.lines,
            final(self)@.unprocessed == old(self)@.unprocessed,
            old(self)@.position == 0 ==> final(self)@ == old(self)@,
            old(self)@.position > 0 ==> final(self)@.position == old(self)@.position - 1 && final(self)@.cursor == final(self)@.current().len(),
    {
        if self.command_position != 0 {
            self.command_position = self.command_position - 1;
            self.cursor_position = self.commands[self.command_position].as_str().unicode_len();
        }
    }

    /// Moves the cursor one character left, stopping at the start.
    pub fn move_left(&mut self)
        requires
            old(self)@.wf(),
        ensures
            final(self)@.wf(),
            final(self)@.lines == old(self)@.lines,
            final(self)@.position == old(self)@.position,
            final(self)@.unprocessed == old(self)@.unprocessed,
            final(self)@.cursor == if old(self)@.cursor == 0 {
                0int
            } else {
                old(self)@.cursor - 1
            },
    {
        if self.cursor_position != 0 {
            self.cursor_position = self.cursor_position - 1;
        }
    }

    /// Moves the cursor one character right, stopping at the end.
    pub fn move_right(&mut self)
        requires
            old(self)@.wf(),
        ensures
            final(self)@.wf(),
            final(self)@.lines == old(self)@.lines,
            final(self)@.position == old(self)@.position,
            final(self)@.unprocessed == old(self)@.unprocessed,
            final(self)@.cursor == if old(self)@.cursor < old(self)@.current().len() {
                old(self)@.cursor + 1
            } else {
                old(self)@.cursor
            },
    {
        let len = self.commands[self.command_position].as_str().unicode_len();
        if self.cursor_position < len {
            self.cursor_position = self.cursor_position + 1;
        }
    }

    /// Rests the cursor at the start of the line.
    pub fn move_to_start(&mut self)
        requires
            old(self)@.wf(),
        ensures
            final(self)@.wf(),
            final(self)@.lines == old(self)@.lines,
            final(self)@.position == old(self)@.position,
            final(self)@.unprocessed == old(self)@.unprocessed,
            final(self)@.cursor == 0,
    {
        self.cursor_position = 0;
    }

    /// Rests the cursor at the end of the line.
    pub fn move_to_end(&mut self)
        requires
            old(self)@.wf(),
        ensures
            final(self)@.wf(),
            final(self)@.lines == old(self)@.lines,
            final(self)@.position == old(self)@.position,
            final(self)@.unprocessed == old(self)@.unprocessed,
            final(self)@.cursor == old(self)@.current().len(),
    {
        self.cursor_position = self.commands[self.command_position].as_str().unicode_len();
    }

    /// Deletes the character left of the cursor, if any.
    pub fn backspace(&mut self)
        requires
            old(self)@.wf(),
        ensures
            final(self)@.wf(),
            final(self)@.position == old(self)@.position,
            final(self)@.unprocessed == old(self)@.unprocessed,
            old(self)@.cursor == 0 ==> final(self)@ == old(self)@,
            old(self)@.cursor > 0 ==> final(self)@.cursor == old(self)@.cursor - 1 && final(self)@.lines == old(self)@.lines.update(
                old(self)@.position,
                old(self)@.current().subrange(0, old(self)@.cursor - 1) + old(self)@.current().subrange(old(self)@.cursor, old(self)@.current().len() as int),
            ),
    {
        if self.cursor_position == 0 {
            return ;
        }
        self.cursor_position = self.cursor_position - 1;
        let line = &self.commands[self.command_position];
        let len = line.as_str().unicode_len();
        let head = line.as_str().substring_char(0, self.cursor_position).to_owned();
        let tail = line.as_str().substring_char(self.cursor_position + 1, len);
        let new_line = head.concat(tail);
        self.commands[self.command_position] = new_line;
        proof {
            assert(final(self)@.lines =~= old(self)@.lines.update(
                old(self)@.position,
                old(self)@.current().subrange(0, old(self)@.cursor - 1) + old(self)@.current().subrange(old(self)@.cursor, old(self)@.current().len() as int),
            ));
        }
    }

    /// Inserts text at the cursor and moves the cursor past it.
    pub fn append(&mut self, characters: &str)
        requires
            old(self)@.wf(),
            old(self)@.cursor + characters@.len() <= usize::MAX,
        ensures
            final(self)@.wf(),
            final(self)@.position == old(self)@.position,
            final(self)@.unprocessed == old(self)@.unprocessed,
            final(self)@.cursor == old(self)@.cursor + characters@.len(),
            final(self)@.lines == old(self)@.lines.update(
                old(self)@.position,
                old(self)@.current().subrange(0, old(self)@.cursor) + characters@ + old(self)@.current().subrange(old(self)@.cursor, old(self)@.current().len() as int),
            ),
    {
        let line = &self.commands[self.command_position];
        let len = line.as_str().unicode_len();
        let head = line.as_str().substring_char(0, self.cursor_position).to_owned();
        let tail = line.as_str().substring_char(self.cursor_position, len);
        let mut new_line = head.concat(characters);
        new_line.append(tail);
        self.commands[self.command_position] = new_line;
        self.cursor_position = self.cursor_position + characters.unicode_len();
        proof {
            assert(final(self)@.lines =~= old(self)@.lines.update(
                old(self)@.position,
                old(self)@.current().subrange(0, old(self)@.cursor) + characters@ + old(self)@.current().subrange(old(self)@.cursor, old(self)@.current().len() as int),
            ));
        }
    }

    /// Commits the current line as a command to run: a scrolled-back
    /// selection replaces the line being edited, a fresh empty line opens,
    /// and the commit is counted as unprocessed.
    pub fn commit(&mut self)
        requires
            old(self)@.wf(),
        ensures
            final(self)@.wf(),
            final(self)@.lines == old(self)@.lines.update(
                old(self)@.lines.len() - 1,
                old(self)@.current(),
            ).push(Seq::<char>::empty()),
            final(self)@.position == final(self)@.lines.len() - 1,
            final(self)@.cursor == 0,
            final(self)@.unprocessed == old(self)@.unprocessed + 1,
    {
        if self.command_position != self.commands.len() - 1 {
            let top = self.commands.len() - 1;
            let selected = self.commands[self.command_position].clone();
            self.commands[top] = selected;
        }
        self.commands.push(String::new());
        self.commands_unprocessed = self.commands_unprocessed + 1;
        self.cursor_position = 0;
        self.command_position = self.commands.len() - 1;
        proof {
            assert(final(self)@.lines =~= old(self)@.lines.update(
                old(self)@.lines.len() - 1,
                old(self)@.current(),
            ).push(Seq::<char>::empty()));
        }
    }

    /// The commands committed since the last take, oldest first.
    pub fn commands(&self) -> (r: &[String])
        requires
            self@.wf(),
        ensures
            Seq::new(r@.len(), |i: int| r@[i]@) == self@.lines.subrange(
                self@.lines.len() - 1 - self@.unprocessed,
                self@.lines.len() - 1,
            ),
    {
        let ncmds = self.commands_unprocessed;
        let len = self.commands.len();
        let r = vstd::slice::slice_subrange(self.commands.as_slice(), len - ncmds - 1, len - 1);
        proof {
            assert(Seq::new(r@.len(), |i: int| r@[i]@) =~= self@.lines.subrange(
                self@.lines.len() - 1 - self@.unprocessed,
                self@.lines.len() - 1,
            ));
        }
        r
    }

    /// Takes the commands committed since the last take, marking them
    /// processed.
    pub fn take_commands(&mut self) -> (r: Vec<String>)
        requires
            old(self)@.wf(),
        ensures
            final(self)@.wf(),
            final(self)@.lines == old(self)@.lines,
            final(self)@.position == old(self)@.position,
            final(self)@.cursor == old(self)@.cursor,
            final(self)@.unprocessed == 0,
            Seq::new(r@.len(), |i: int| r@[i]@) == old(self)@.lines.subrange(
                old(self)@.lines.len() - 1 - old(self)@.unprocessed,
                old(self)@.lines.len() - 1,
            ),
    {
        let ncmds = self.commands_unprocessed;
        self.commands_unprocessed = 0;
        let len = self.commands.len();
        let mut out: Vec<String> = Vec::new();
        let mut i: usize = len - ncmds - 1;
        while i < len - 1
            invariant
                len == self.commands@.len(),
                old(self)@.lines.len() - 1 - old(self)@.unprocessed <= i <= len - 1,
                self@.lines == old(self)@.lines,
                out@.len() == i - (len - 1 - ncmds),
                ncmds == old(self)@.unprocessed,
                forall|j: int|
                    0 <= j < out@.len() ==> out@[j]@ == old(self)@.lines[len - 1 - ncmds + j],
            decreases len - 1 - i,
        {
            out.push(self.commands[i].clone());
            i = i + 1;
        }
        proof {
            assert(Seq::new(out@.len(), |i: int| out@[i]@) =~= old(self)@.lines.subrange(
                old(self)@.lines.len() - 1 - old(self)@.unprocessed,
                old(self)@.lines.len() - 1,
            ));
        }
        out
    }

    /// The current line split for display: the text left of the cursor,
    /// the selected character (a space at the end of the line), and the
    /// rest.
    pub fn format(&self) -> (r: (String, String, String))
        requires
            self@.wf(),
        ensures
            self@.cursor < self@.current().len() ==> r.0@ == self@.current().subrange(
                0,
                self@.cursor,
            ) && r.1@ == seq![self@.current()[self@.cursor]] && r.2@ == self@.current().subrange(
                self@.cursor + 1,
                self@.current().len() as int,
            ),
            self@.cursor == self@.current().len() ==> r.0@ == self@.current() && r.1@ == " "@
                && r.2@ == Seq::<char>::empty(),
    {
        let line = &self.commands[self.command_position];
        let len = line.as_str().unicode_len();
        let left = line.as_str().substring_char(0, self.cursor_position).to_owned();
        if self.cursor_position == len {
            let select = String::from_str(" ");
            let right = String::new();
            proof {
                assert(self@.current().subrange(0, self@.current().len() as int)
                    =~= self@.current());
            }
            (left, select, right)
        } else {
            let mut select = String::new();
            select.push(line.as_str().get_char(self.cursor_position));
            let right = line.as_str().substring_char(self.cursor_position + 1, len).to_owned();
            proof {
                assert(select@ =~= seq![self@.current()[self@.cursor]]);
            }
            (left, select, right)
        }
    }
}

} // verus!
