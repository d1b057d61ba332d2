//! The interactive command line of the listing view: a prompt, a command
//! history with inline suggestions, and word-wise cursor movement. All
//! positions are counted in characters.
//!
//! Drawing, key decoding and the history file are the caller's: this type
//! holds the editing state and its rules.

use vstd::prelude::*;

verus! {

use vstd::string::StrSliceExecFns;
use vstd::string::StringExecFns;
use crate::text::{escape_debug_string, escaped_text, is_prefix, spec_is_whitespace, str_starts_with};

/// The abstract value of the interactive command line.
pub struct TerminalView {
    /// Text printed before the input line.
    pub prompt: Seq<char>,
    /// Every line: the history and, last, the line being edited.
    pub lines: Seq<Seq<char>>,
    /// Which line the cursor sits in.
    pub position: int,
    /// The cursor, as a character index into the current line.
    pub cursor: int,
    /// How many committed commands were not yet taken.
    pub unprocessed: int,
    /// Whether the view must re-place its cursor on the next draw.
    pub reset_cursor: bool,
    /// The inline completion offered after the cursor.
    pub suggestion: Seq<char>,
}

impl TerminalView {
    pub open spec fn wf(self) -> bool {
        &&& self.lines.len() >= 1
        &&& 0 <= self.position < self.lines.len()
        &&& 0 <= self.cursor <= self.lines[self.position].len()
        &&& 0 <= self.unprocessed < self.lines.len()
    }

    pub open spec fn current(self) -> Seq<char> {
        self.lines[self.position]
    }
}

/// What the suggestion rule yields for `cmd`: nothing for an empty
/// line, else the rest of the latest other line extending it.
pub open spec fn spec_suggest_rule(lines: Seq<Seq<char>>, position: int, cmd: Seq<char>) -> Seq<
    char,
> {
    if cmd.len() == 0 {
        Seq::empty()
    } else {
        spec_suggestion(lines, position, cmd)
    }
}

/// The inline suggestion for `cmd`: the rest of the latest other line
/// that starts with it; empty when no line does.
pub open spec fn spec_suggestion(lines: Seq<Seq<char>>, position: int, cmd: Seq<char>) -> Seq<char>
    decreases lines.len(),
{
    if lines.len() == 0 {
        Seq::empty()
    } else {
        let last = lines.len() - 1;
        if last != position && is_prefix(cmd, lines[last]) {
            lines[last].skip(cmd.len() as int)
        } else {
            spec_suggestion(lines.take(last), position, cmd)
        }
    }
}

/// Where the word-wise left movement from character `k` (scanning down,
/// starting outside a word) rests the cursor: one past the whitespace
/// that precedes the word most recently entered, or the line start.
pub open spec fn spec_word_left(line: Seq<char>, k: int, in_ws: bool) -> int
    decreases k + 1,
{
    if k < 0 {
        0
    } else if spec_is_whitespace(line[k]) {
        if !in_ws {
            k + 1
        } else {
            spec_word_left(line, k - 1, true)
        }
    } else {
        spec_word_left(line, k - 1, false)
    }
}

/// Where the word-wise right movement resting on character `k` (scanning
/// up from the cursor) rests the cursor: the first whitespace after the
/// word being crossed, or the line end.
pub open spec fn spec_word_right(line: Seq<char>, k: int, in_ws: bool, start: int) -> int
    decreases line.len() - k,
{
    if k >= line.len() {
        line.len() as int
    } else if spec_is_whitespace(line[k]) {
        if !in_ws && k > start {
            k
        } else {
            spec_word_right(line, k + 1, in_ws, start)
        }
    } else {
        spec_word_right(line, k + 1, false, start)
    }
}

/// The interactive command line's editing state.
#[derive(Debug)]
pub struct Terminal {
    prompt: String,
    commands: Vec<String>,
    commands_unprocessed: usize,
    command_position: usize,
    cursor_position: usize,
    reset_cursor: bool,
    suggestion: String,
}

impl View for Terminal {
    type V = TerminalView;

    closed spec fn view(&self) -> TerminalView {
        TerminalView {
            prompt: self.prompt@,
            lines: Seq::new(self.commands@.len(), |i: int| self.commands@[i]@),
            position: self.command_position as int,
            cursor: self.cursor_position as int,
            unprocessed: self.commands_unprocessed as int,
            reset_cursor: self.reset_cursor,
            suggestion: self.suggestion@,
        }
    }
}

impl Terminal {
    /// A fresh command line: one empty line, nothing committed, no
    /// prompt, no suggestion.
    pub fn new() -> (r: Terminal)
        ensures
            r@.wf(),
            r@.lines == seq![Seq::<char>::empty()],
            r@.position == 0,
            r@.cursor == 0,
            r@.unprocessed == 0,
            r@.prompt == Seq::<char>::empty(),
            r@.suggestion == Seq::<char>::empty(),
            r@.reset_cursor,
    {
        let mut commands: Vec<String> = Vec::new();
        commands.push(String::new());
        let r = Terminal {
            prompt: String::new(),
            commands,
            commands_unprocessed: 0,
            command_position: 0,
            cursor_position: 0,
            reset_cursor: true,
            suggestion: String::new(),
        };
        proof {
            assert(r@.lines =~= seq![Seq::<char>::empty()]);
        }
        r
    }

    /// A command line whose history was already read by the caller.
    pub fn with_history(history: Vec<String>) -> (r: Terminal)
        ensures
            r@.wf(),
            r@.lines == Seq::new(history@.len(), |i: int| history@[i]@).push(Seq::<char>::empty()),
            r@.position == r@.lines.len() - 1,
            r@.cursor == 0,
            r@.unprocessed == 0,
            r@.prompt == Seq::<char>::empty(),
            r@.suggestion == Seq::<char>::empty(),
    {
        let mut commands = history;
        let ghost given = Seq::new(commands@.len(), |i: int| commands@[i]@);
        commands.push(String::new());
        let position = commands.len() - 1;
        let r = Terminal {
            prompt: String::new(),
            commands,
            commands_unprocessed: 0,
            command_position: position,
            cursor_position: 0,
            reset_cursor: true,
            suggestion: String::new(),
        };
        proof {
            assert(r@.lines =~= given.push(Seq::<char>::empty()));
        }
        r
    }

    /// The line the cursor sits in.
    pub fn current_line(&self) -> (r: &String)
        requires
            self@.wf(),
        ensures
            r@ == self@.current(),
    {
        &self.commands[self.command_position]
    }

    /// The cursor, as a character index into the current line.
    pub fn cursor(&self) -> (r: usize)
        ensures
            r == self@.cursor,
    {
        self.cursor_position
    }

    /// The prompt text printed before the input line.
    pub fn prompt(&self) -> (r: &String)
        ensures
            r@ == self@.prompt,
    {
        &self.prompt
    }

    /// The inline completion offered after the cursor.
    pub fn suggestion(&self) -> (r: &String)
        ensures
            r@ == self@.suggestion,
    {
        &self.suggestion
    }

    /// Appends to the prompt, as the command loop prints responses.
    pub fn write_str(&mut self, s: &str)
        requires
            old(self)@.wf(),
        ensures
            final(self)@.wf(),
            final(self)@ == (TerminalView { prompt: old(self)@.prompt + s@, reset_cursor: true, ..old(self)@ }),
    {
        self.reset_cursor = true;
        self.prompt.append(s);
    }

    /// Empties the current line and drops the suggestion.
    pub fn clear_line(&mut self)
        requires
            old(self)@.wf(),
        ensures
            final(self)@.wf(),
            final(self)@ == (TerminalView {
                lines: old(self)@.lines.update(old(self)@.position, Seq::<char>::empty()),
                cursor: 0,
                suggestion: Seq::<char>::empty(),
                ..old(self)@
            }),
    {
        self.cursor_position = 0;
        self.commands[self.command_position] = String::new();
        self.suggestion = String::new();
        proof {
            assert(final(self)@.lines =~= old(self)@.lines.update(
                old(self)@.position,
                Seq::<char>::empty(),
            ));
        }
    }

    /// Clears everything: the prompt, the history and the line being
    /// edited. The history file, kept by the caller, is the caller's to
    /// rewrite.
    pub fn clear(&mut self)
        ensures
            final(self)@.wf(),
            final(self)@.prompt == Seq::<char>::empty(),
            final(self)@.lines == seq![Seq::<char>::empty()],
            final(self)@.position == 0,
            final(self)@.cursor == 0,
            final(self)@.suggestion == Seq::<char>::empty(),
            final(self)@.unprocessed == 0,
            final(self)@.reset_cursor == old(self)@.reset_cursor,
    {
        self.prompt = String::new();
        self.cursor_position = 0;
        self.suggestion = String::new();
        let mut commands: Vec<String> = Vec::new();
        commands.push(String::new());
        self.commands = commands;
        self.command_position = 0;
        self.commands_unprocessed = 0;
        proof {
            assert(final(self)@.lines =~= seq![Seq::<char>::empty()]);
        }
    }

    /// Steps to the next (newer) command, resting the cursor at its end
    /// and dropping the suggestion.
    pub fn scroll_to_next_cmd(&mut self)
        requires
            old(self)@.wf(),
        ensures
            final(self)@.wf(),
            final(self)@.lines == old(self)@.lines,
            final(self)@.unprocessed == old(self)@.unprocessed,
            final(self)@.suggestion == Seq::<char>::empty(),
            old(self)@.position == old(self)@.lines.len() - 1 ==> final(self)@.position == old(self)@.position && final(self)@.cursor == old(self)@.cursor,
            old(self)@.position < old(self)@.lines.len() - 1 ==> final(self)@.position == old(self)@.position + 1 && final(self)@.cursor == final(self)@.current().len(),
    {
        if self.command_position != self.commands.len() - 1 {
            self.command_position = self.command_position + 1;
            self.cursor_position = self.commands[self.command_position].as_str().unicode_len();
        }
        self.suggestion = String::new();
    }

    /// Steps to the previous (older) command, resting the cursor at its
    /// end and dropping the suggestion.
    pub fn scroll_to_prev_cmd(&mut self)
        requires
            old(self)@.wf(),
        ensures
            final(self)@.wf(),
            final(self)@.lines == old(self)@.lines,
            final(self)@.unprocessed == old(self)@.unprocessed,
            final(self)@.suggestion == Seq::<char>::empty(),
            old(self)@.position == 0 ==> final(self)@.position == old(self)@.position && final(self)@.cursor == old(self)@.cursor,
            old(self)@.position > 0 ==> final(self)@.position == old(self)@.position - 1 && final(self)@.cursor == final(self)@.current().len(),
    {
        if self.command_position != 0 {
            self.command_position = self.command_position - 1;
            self.cursor_position = self.commands[self.command_position].as_str().unicode_len();
        }
        self.suggestion = String::new();
    }

    /// Accepts the suggestion: appends it to the line, rests the cursor
    /// at the end and drops it.
    pub fn autocomplete(&mut self)
        requires
            old(self)@.wf(),
        ensures
            final(self)@.wf(),
            final(self)@.lines == old(self)@.lines.update(
                old(self)@.position,
                old(self)@.current() + old(self)@.suggestion,
            ),
            final(self)@.position == old(self)@.position,
            final(self)@.cursor == final(self)@.current().len(),
            final(self)@.suggestion == Seq::<char>::empty(),
            final(self)@.unprocessed == old(self)@.unprocessed,
    {
        let line = self.commands[self.command_position].clone();
        let new_line = line.concat(self.suggestion.as_str());
        let new_len = new_line.as_str().unicode_len();
        self.commands[self.command_position] = new_line;
        self.cursor_position = new_len;
        self.suggestion = String::new();
        proof {
            assert(final(self)@.lines =~= old(self)@.lines.update(
                old(self)@.position,
                old(self)@.current() + old(self)@.suggestion,
            ));
        }
    }

    /// Moves the cursor one character left, stopping at the start.
    pub fn move_left(&mut self)
        requires
            old(self)@.wf(),
        ensures
            final(self)@.wf(),
            final(self)@ == (TerminalView {
                cursor: if old(self)@.cursor == 0 {
                    0int
                } else {
                    old(self)@.cursor - 1
                },
                ..old(self)@
            }),
    {
        if self.cursor_position != 0 {
            self.cursor_position = self.cursor_position - 1;
        }
    }

    /// Moves the cursor one character right; with a pending suggestion
    /// this accepts it instead.
    pub fn move_right(&mut self)
        requires
            old(self)@.wf(),
        ensures
            final(self)@.wf(),
            old(self)@.suggestion.len() > 0 ==> final(self)@.lines == old(self)@.lines.update(
                old(self)@.position,
                old(self)@.current() + old(self)@.suggestion,
            ) && final(self)@.suggestion == Seq::<char>::empty(),
            old(self)@.suggestion.len() == 0 ==> final(self)@ == (TerminalView {
                cursor: if old(self)@.cursor < old(self)@.current().len() {
                    old(self)@.cursor + 1
                } else {
                    old(self)@.cursor
                },
                ..old(self)@
            }),
    {
        if !self.suggestion.as_str().is_empty() {
            self.autocomplete();
            return ;
        }
        let len = self.commands[self.command_position].as_str().unicode_len();
        if self.cursor_position < len {
            self.cursor_position = self.cursor_position + 1;
        }
    }

    /// Moves the cursor to the start of the previous word.
    pub fn move_left_next_word(&mut self)
        requires
            old(self)@.wf(),
        ensures
            final(self)@.wf(),
            final(self)@ == (TerminalView {
                cursor: spec_word_left(old(self)@.current(), old(self)@.cursor - 1, true),
                ..old(self)@
            }),
    {
        let line = &self.commands[self.command_position];
        let mut k: usize = self.cursor_position;
        let mut in_ws = true;
        let mut new_pos: usize = 0;
        let ghost cur = self@.current();
        loop
            invariant_except_break
                0 <= k <= self@.cursor,
                self@.wf(),
                cur == self@.current(),
                line@ == cur,
                spec_word_left(cur, self@.cursor - 1, true) == spec_word_left(
                    cur,
                    k - 1,
                    in_ws,
                ),
            ensures
                0 <= new_pos <= self@.cursor,
                new_pos == spec_word_left(cur, self@.cursor - 1, true),
            decreases k,
        {
            if k == 0 {
                new_pos = 0;
                break ;
            }
            let c = line.as_str().get_char(k - 1);
            if c.is_whitespace() {
                if !in_ws {
                    new_pos = k;
                    break ;
                }
            } else {
                in_ws = false;
            }
            k = k - 1;
        }
        self.cursor_position = new_pos;
    }

    /// Moves the cursor to the start of the next word.
    pub fn move_right_next_word(&mut self)
        requires
            old(self)@.wf(),
        ensures
            final(self)@.wf(),
            final(self)@ == (TerminalView {
                cursor: spec_word_right(
                    old(self)@.current(),
                    old(self)@.cursor,
                    true,
                    old(self)@.cursor,
                ),
                ..old(self)@
            }),
    {
        let line = &self.commands[self.command_position];
        let len = line.as_str().unicode_len();
        let start = self.cursor_position;
        let mut k: usize = start;
        let mut in_ws = true;
        let new_pos: usize;
        let ghost cur = self@.current();
        loop
            invariant_except_break
                start <= k <= len,
                self@.wf(),
                start == self@.cursor,
                cur == self@.current(),
                line@ == cur,
                len == cur.len(),
                spec_word_right(cur, start as int, true, start as int) == spec_word_right(
                    cur,
                    k as int,
                    in_ws,
                    start as int,
                ),
            ensures
                start <= new_pos <= len,
                new_pos == spec_word_right(cur, start as int, true, start as int),
            decreases len - k,
        {
            if k == len {
                new_pos = len;
                break ;
            }
            let c = line.as_str().get_char(k);
            if c.is_whitespace() {
                if !in_ws && k > start {
                    new_pos = k;
                    break ;
                }
            } else {
                in_ws = false;
            }
            k = k + 1;
        }
        self.cursor_position = new_pos;
    }

    /// Deletes the character left of the cursor, if any, and refreshes
    /// the suggestion.
    pub fn backspace(&mut self)
        requires
            old(self)@.wf(),
        ensures
            final(self)@.wf(),
            final(self)@.position == old(self)@.position,
            final(self)@.unprocessed == old(self)@.unprocessed,
            old(self)@.cursor == 0 ==> final(self)@ == old(self)@,
            old(self)@.cursor > 0 ==> final(self)@.cursor == old(self)@.cursor - 1 && final(self)@.lines == old(self)@.lines.update(
                old(self)@.position,
                old(self)@.current().subrange(0, old(self)@.cursor - 1) + old(self)@.current().subrange(old(self)@.cursor, old(self)@.current().len() as int),
            ) && final(self)@.suggestion == spec_suggest_rule(
                final(self)@.lines,
                final(self)@.position,
                final(self)@.current(),
            ),
    {
        if self.cursor_position == 0 {
            return ;
        }
        self.cursor_position = self.cursor_position - 1;
        let line = &self.commands[self.command_position];
        let len = line.as_str().unicode_len();
        let head = line.as_str().substring_char(0, self.cursor_position).to_owned();
        let tail = line.as_str().substring_char(self.cursor_position + 1, len);
        let new_line = head.concat(tail);
        self.commands[self.command_position] = new_line;
        proof {
            assert(self@.lines =~= old(self)@.lines.update(
                old(self)@.position,
                old(self)@.current().subrange(0, old(self)@.cursor - 1) + old(self)@.current().subrange(old(self)@.cursor, old(self)@.current().len() as int),
            ));
        }
        self.term_suggest();
    }

    /// Inserts the text at the cursor, escaped for display, moves the
    /// cursor past it and refreshes the suggestion.
    pub fn append(&mut self, characters: &str)
        requires
            old(self)@.wf(),
        ensures
            final(self)@.wf(),
            final(self)@.position == old(self)@.position,
            final(self)@.unprocessed == old(self)@.unprocessed,
            final(self)@.cursor == old(self)@.cursor + escaped_text(characters@).len(),
            final(self)@.lines == old(self)@.lines.update(
                old(self)@.position,
                old(self)@.current().subrange(0, old(self)@.cursor) + escaped_text(characters@)
                    + old(self)@.current().subrange(
                    old(self)@.cursor,
                    old(self)@.current().len() as int,
                ),
            ),
            final(self)@.suggestion == spec_suggest_rule(
                final(self)@.lines,
                final(self)@.position,
                final(self)@.current(),
            ),
    {
        let escaped = escape_debug_string(characters);
        let line = &self.commands[self.command_position];
        let len = line.as_str().unicode_len();
        let head = line.as_str().substring_char(0, self.cursor_position).to_owned();
        let tail = line.as_str().substring_char(self.cursor_position, len);
        let mut new_line = head.concat(escaped.as_str());
        let mid_len = new_line.as_str().unicode_len();
        new_line.append(tail);
        self.commands[self.command_position] = new_line;
        self.cursor_position = mid_len;
        proof {
            assert(self@.lines =~= old(self)@.lines.update(
                old(self)@.position,
                old(self)@.current().subrange(0, old(self)@.cursor) + escaped_text(characters@)
                    + old(self)@.current().subrange(
                    old(self)@.cursor,
                    old(self)@.current().len() as int,
                ),
            ));
        }
        self.term_suggest();
    }

    /// Refreshes the inline suggestion: the rest of the latest other line
    /// that extends the current one; empty for an empty line.
    pub fn term_suggest(&mut self)
        requires
            old(self)@.wf(),
        ensures
            final(self)@.wf(),
            final(self)@ == (TerminalView {
                suggestion: spec_suggest_rule(
                    old(self)@.lines,
                    old(self)@.position,
                    old(self)@.current(),
                ),
                ..old(self)@
            }),
    {
        let cmd = self.commands[self.command_position].clone();
        if cmd.as_str().is_empty() {
            self.suggestion = String::new();
            proof {
                assert(final(self)@.suggestion =~= spec_suggest_rule(
                    old(self)@.lines,
                    old(self)@.position,
                    old(self)@.current(),
                ));
            }
            return ;
        }
        let mut idx: usize = self.commands.len();
        let ghost lines = self@.lines;
        let ghost pos = self@.position;
        proof {
            assert(lines.take(lines.len() as int) =~= lines);
        }
        let mut result: Option<String> = None;
        loop
            invariant_except_break
                0 <= idx <= lines.len(),
                self@.wf(),
                lines == self@.lines,
                pos == self@.position,
                cmd@ == self@.current(),
                result is None,
                spec_suggestion(lines, pos, cmd@) == spec_suggestion(
                    lines.take(idx as int),
                    pos,
                    cmd@,
                ),
            ensures
                lines == self@.lines,
                pos == self@.position,
                cmd@ == self@.current(),
                match result {
                    Some(s) => s@ == spec_suggestion(lines, pos, cmd@),
                    None => spec_suggestion(lines, pos, cmd@) == Seq::<char>::empty(),
                },
            decreases idx,
        {
            if idx == 0 {
                proof {
                    assert(lines.take(0).len() == 0);
                }
                break ;
            }
            idx = idx - 1;
            let candidate = &self.commands[idx];
            proof {
                assert(lines.take(idx as int + 1)[idx as int] == lines[idx as int]);
                assert(lines.take(idx as int + 1).take(idx as int) =~= lines.take(idx as int));
            }
            if idx != self.command_position && str_starts_with(candidate.as_str(), cmd.as_str()) {
                let rest = crate::text::strip_prefix(candidate.as_str(), cmd.as_str());
                result = Some(rest);
                break ;
            }
        }
        match result {
            Some(s) => {
                self.suggestion = s;
            },
            None => {
                self.suggestion = String::new();
                proof {
                    assert(final(self)@.suggestion =~= spec_suggestion(lines, pos, cmd@));
                }
            },
        }
    }

    /// Commits the current line as a command to run.
    pub fn commit(&mut self)
        requires
            old(self)@.wf(),
        ensures
            final(self)@.wf(),
            final(self)@.lines == old(self)@.lines.update(
                old(self)@.lines.len() - 1,
                old(self)@.current(),
            ).push(Seq::<char>::empty()),
            final(self)@.position == final(self)@.lines.len() - 1,
            final(self)@.cursor == 0,
            final(self)@.unprocessed == old(self)@.unprocessed + 1,
            final(self)@.suggestion == Seq::<char>::empty(),
    {
        if self.command_position != self.commands.len() - 1 {
            let top = self.commands.len() - 1;
            let selected = self.commands[self.command_position].clone();
            self.commands[top] = selected;
        }
        self.commands.push(String::new());
        self.commands_unprocessed = self.commands_unprocessed + 1;
        self.cursor_position = 0;
        self.command_position = self.commands.len() - 1;
        self.suggestion = String::new();
        proof {
            assert(final(self)@.lines =~= old(self)@.lines.update(
                old(self)@.lines.len() - 1,
                old(self)@.current(),
            ).push(Seq::<char>::empty()));
        }
    }

    /// Takes the commands committed since the last take, marking them
    /// processed.
    pub fn take_commands(&mut self) -> (r: Vec<String>)
        requires
            old(self)@.wf(),
        ensures
            final(self)@.wf(),
            final(self)@.lines == old(self)@.lines,
            final(self)@.position == old(self)@.position,
            final(self)@.cursor == old(self)@.cursor,
            final(self)@.unprocessed == 0,
            Seq::new(r@.len(), |i: int| r@[i]@) == old(self)@.lines.subrange(
                old(self)@.lines.len() - 1 - old(self)@.unprocessed,
                old(self)@.lines.len() - 1,
            ),
    {
        let ncmds = self.commands_unprocessed;
        self.commands_unprocessed = 0;
        let len = self.commands.len();
        let mut out: Vec<String> = Vec::new();
        let mut i: usize = len - ncmds - 1;
        while i < len - 1
            invariant
                len == self.commands@.len(),
                old(self)@.lines.len() - 1 - old(self)@.unprocessed <= i <= len - 1,
                self@.lines == old(self)@.lines,
                out@.len() == i - (len - 1 - ncmds),
                ncmds == old(self)@.unprocessed,
                forall|j: int|
                    0 <= j < out@.len() ==> out@[j]@ == old(self)@.lines[len - 1 - ncmds + j],
            decreases len - 1 - i,
        {
            out.push(self.commands[i].clone());
            i = i + 1;
        }
        proof {
            assert(Seq::new(out@.len(), |i: int| out@[i]@) =~= old(self)@.lines.subrange(
                old(self)@.lines.len() - 1 - old(self)@.unprocessed,
                old(self)@.lines.len() - 1,
            ));
        }
        out
    }
}

} // verus!
