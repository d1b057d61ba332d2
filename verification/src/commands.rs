//! The command line's decision core: splitting an entered line into
//! words, recognizing the command, and guessing what an unknown command
//! meant. Running the decided action (spawning, changing directory,
//! printing) is input/output and belongs to the caller.

use vstd::prelude::*;

verus! {

use vstd::string::StrSliceExecFns;
use vstd::string::StringExecFns;
use crate::text::{is_prefix, spec_is_whitespace, str_starts_with};

/// The Levenshtein edit distance between two strings: a pure function of
/// the characters alone.
pub uninterp spec fn edit_distance(a: Seq<char>, b: Seq<char>) -> u32;

/// Relies on `triple_accel::levenshtein_exp`: the edit distance between
/// the two byte strings, a pure function of its arguments. Its doubling
/// search assumes the distance fits well under its 32-bit threshold, so
/// the inputs are kept far below that.
#[verifier::external_body]
fn levenshtein(a: &str, b: &str) -> (r: u32)
    requires
        a@.len() <= 0x10000000,
        b@.len() <= 0x10000000,
    ensures
        r == edit_distance(a@, b@),
{
    triple_accel::levenshtein_exp(a.as_bytes(), b.as_bytes())
}

/// One fold step of the best-guess scan: a strictly smaller distance
/// replaces the best guess so far.
pub open spec fn spec_better(best: (u32, Seq<char>), d: u32, name: Seq<char>) -> (u32, Seq<char>) {
    if d < best.0 {
        (d, name)
    } else {
        best
    }
}

/// The best guess among the known commands, scanned in their fixed order.
pub open spec fn spec_best_guess(unknown: Seq<char>) -> (u32, Seq<char>) {
    spec_better(
        spec_better(
            spec_better(
                spec_better((u32::MAX, ""@), edit_distance(unknown, "exec"@), "exec"@),
                edit_distance(unknown, "pwd"@),
                "pwd"@,
            ),
            edit_distance(unknown, "cd"@),
            "cd"@,
        ),
        edit_distance(unknown, "quit"@),
        "quit"@,
    )
}

/// The known command closest to an unknown one, when it is at most two
/// edits away.
pub fn possible_command(unknown: &str) -> (r: Option<&'static str>)
    requires
        unknown@.len() <= 0x10000000,
    ensures
        match r {
            Some(guess) => spec_best_guess(unknown@).0 <= 2 && guess@ == spec_best_guess(
                unknown@,
            ).1,
            None => spec_best_guess(unknown@).0 > 2,
        },
{
    proof {
        reveal_strlit("exec");
        reveal_strlit("pwd");
        reveal_strlit("cd");
        reveal_strlit("quit");
    }
    let mut distance: u32 = u32::MAX;
    let mut best_guess: &'static str = "";
    let d = levenshtein(unknown, "exec");
    if d < distance {
        distance = d;
        best_guess = "exec";
    }
    let d = levenshtein(unknown, "pwd");
    if d < distance {
        distance = d;
        best_guess = "pwd";
    }
    let d = levenshtein(unknown, "cd");
    if d < distance {
        distance = d;
        best_guess = "cd";
    }
    let d = levenshtein(unknown, "quit");
    if d < distance {
        distance = d;
        best_guess = "quit";
    }
    if distance <= 2 {
        Some(best_guess)
    } else {
        None
    }
}

/// The line's whitespace-separated words, from index `i` on, with `cur`
/// the word being gathered.
pub open spec fn spec_split_from(s: Seq<char>, i: int, cur: Seq<char>) -> Seq<Seq<char>>
    decreases s.len() - i,
{
    if i >= s.len() {
        if cur.len() > 0 {
            seq![cur]
        } else {
            Seq::empty()
        }
    } else if spec_is_whitespace(s[i]) {
        (if cur.len() > 0 {
            seq![cur]
        } else {
            Seq::<Seq<char>>::empty()
        }) + spec_split_from(s, i + 1, Seq::empty())
    } else {
        spec_split_from(s, i + 1, cur.push(s[i]))
    }
}

/// The line's whitespace-separated words.
pub open spec fn spec_words(s: Seq<char>) -> Seq<Seq<char>> {
    spec_split_from(s, 0, Seq::empty())
}

/// No word outgrows the text it was split from.
proof fn lemma_words_bounded(s: Seq<char>, i: int, cur: Seq<char>)
    requires
        0 <= i <= s.len(),
    ensures
        forall|k: int|
            0 <= k < spec_split_from(s, i, cur).len() ==> (#[trigger] spec_split_from(
                s,
                i,
                cur,
            )[k]).len() <= cur.len() + s.len() - i,
    decreases s.len() - i,
{
    if i >= s.len() {
        assert forall|k: int|
            0 <= k < spec_split_from(s, i, cur).len() implies (#[trigger] spec_split_from(
            s,
            i,
            cur,
        )[k]).len() <= cur.len() + s.len() - i by {
            assert(spec_split_from(s, i, cur)[k] == cur);
        }
    } else if spec_is_whitespace(s[i]) {
        lemma_words_bounded(s, i + 1, Seq::empty());
        let head: Seq<Seq<char>> = if cur.len() > 0 {
            seq![cur]
        } else {
            Seq::<Seq<char>>::empty()
        };
        let rest = spec_split_from(s, i + 1, Seq::empty());
        assert forall|k: int|
            0 <= k < spec_split_from(s, i, cur).len() implies (#[trigger] spec_split_from(
            s,
            i,
            cur,
        )[k]).len() <= cur.len() + s.len() - i by {
            if k < head.len() {
                assert(spec_split_from(s, i, cur)[k] == cur);
            } else {
                assert(spec_split_from(s, i, cur)[k] == rest[k - head.len()]);
            }
        }
    } else {
        lemma_words_bounded(s, i + 1, cur.push(s[i]));
        assert forall|k: int|
            0 <= k < spec_split_from(s, i, cur).len() implies (#[trigger] spec_split_from(
            s,
            i,
            cur,
        )[k]).len() <= cur.len() + s.len() - i by {
            assert(spec_split_from(s, i, cur)[k] == spec_split_from(s, i + 1, cur.push(s[i]))[k]);
        }
    }
}

/// Splits a line at whitespace into its words.
pub fn split_words(s: &str) -> (r: Vec<String>)
    ensures
        Seq::new(r@.len(), |i: int| r@[i]@) == spec_words(s@),
{
    let len = s.unicode_len();
    let mut out: Vec<String> = Vec::new();
    let mut cur = String::new();
    let mut i: usize = 0;
    while i < len
        invariant
            i <= len,
            len == s@.len(),
            Seq::new(out@.len(), |k: int| out@[k]@) + spec_split_from(s@, i as int, cur@)
                == spec_words(s@),
        decreases len - i,
    {
        let c = s.get_char(i);
        proof {
            assert(c == s@[i as int]);
        }
        let ghost pre = Seq::new(out@.len(), |k: int| out@[k]@);
        if c.is_whitespace() {
            if !cur.as_str().is_empty() {
                let finished = cur;
                cur = String::new();
                let ghost fv = finished@;
                out.push(finished);
                proof {
                    assert(spec_is_whitespace(s@[i as int]));
                    assert(spec_split_from(s@, i as int, fv) == seq![fv] + spec_split_from(
                        s@,
                        i as int + 1,
                        Seq::<char>::empty(),
                    ));
                    assert(Seq::new(out@.len(), |k: int| out@[k]@) =~= pre.push(fv));
                    assert(pre.push(fv) + spec_split_from(s@, i as int + 1, Seq::<char>::empty())
                        =~= pre + (seq![fv] + spec_split_from(
                        s@,
                        i as int + 1,
                        Seq::<char>::empty(),
                    )));
                }
            } else {
                proof {
                    assert(spec_is_whitespace(s@[i as int]));
                    assert(cur@.len() == 0);
                    assert(spec_split_from(s@, i as int, cur@) == Seq::<Seq<char>>::empty()
                        + spec_split_from(s@, i as int + 1, Seq::<char>::empty()));
                    assert(Seq::<Seq<char>>::empty() + spec_split_from(
                        s@,
                        i as int + 1,
                        Seq::<char>::empty(),
                    ) =~= spec_split_from(s@, i as int + 1, Seq::<char>::empty()));
                    assert(cur@ =~= Seq::<char>::empty());
                }
            }
        } else {
            let ghost oc = cur@;
            cur.push(c);
            proof {
                assert(cur@ == oc.push(s@[i as int]));
                assert(spec_split_from(s@, i as int, oc) == spec_split_from(
                    s@,
                    i as int + 1,
                    oc.push(s@[i as int]),
                ));
            }
        }
        i = i + 1;
    }
    let ghost pre = Seq::new(out@.len(), |k: int| out@[k]@);
    if !cur.as_str().is_empty() {
        let ghost fv = cur@;
        out.push(cur);
        proof {
            assert(Seq::new(out@.len(), |k: int| out@[k]@) =~= pre.push(fv));
            assert(pre.push(fv) =~= pre + seq![fv]);
        }
    } else {
        proof {
            assert(pre + Seq::<Seq<char>>::empty() =~= pre);
        }
    }
    out
}

/// What one entered line asks for; the caller performs it.
#[derive(Debug)]
pub enum CommandAction {
    /// An empty line: nothing to do.
    Nothing,
    /// Load and analyze the binary at the (unexpanded) path.
    Exec { path: String },
    /// Loading was asked for without a path.
    ExecMissingPath,
    /// Change the working directory (to the home directory when bare).
    ChangeDir { path: String },
    /// Print the working directory.
    PrintWorkingDir,
    /// Run the loaded binary under the debugger, with the arguments
    /// after a `--` word.
    Run { args: Vec<String> },
    /// Leave.
    Quit,
    /// An unrecognized command, with the nearest known one when any is
    /// at most two edits away.
    Unknown { guess: Option<String> },
}

pub enum CommandActionView {
    Nothing,
    Exec { path: Seq<char> },
    ExecMissingPath,
    ChangeDir { path: Seq<char> },
    PrintWorkingDir,
    Run { args: Seq<Seq<char>> },
    Quit,
    Unknown { guess: Option<Seq<char>> },
}

impl View for CommandAction {
    type V = CommandActionView;

    open spec fn view(&self) -> CommandActionView {
        match self {
            CommandAction::Nothing => CommandActionView::Nothing,
            CommandAction::Exec { path } => CommandActionView::Exec { path: path@ },
            CommandAction::ExecMissingPath => CommandActionView::ExecMissingPath,
            CommandAction::ChangeDir { path } => CommandActionView::ChangeDir { path: path@ },
            CommandAction::PrintWorkingDir => CommandActionView::PrintWorkingDir,
            CommandAction::Run { args } => CommandActionView::Run {
                args: Seq::new(args@.len(), |i: int| args@[i]@),
            },
            CommandAction::Quit => CommandActionView::Quit,
            CommandAction::Unknown { guess } => CommandActionView::Unknown {
                guess: match guess {
                    Some(g) => Some(g@),
                    None => None,
                },
            },
        }
    }
}

/// The index right after the first `--` in the line, scanning from `i`;
/// `None` when the line holds none.
pub open spec fn spec_dashes_end(s: Seq<char>, i: int) -> Option<int>
    decreases s.len() - i,
{
    if i + 2 > s.len() {
        None
    } else if s[i] == '-' && s[i + 1] == '-' {
        Some(i + 2)
    } else {
        spec_dashes_end(s, i + 1)
    }
}

/// What a line decides, given its words.
pub open spec fn spec_action(line: Seq<char>) -> CommandActionView {
    let words = spec_words(line);
    if words.len() == 0 {
        CommandActionView::Nothing
    } else {
        let name = words[0];
        if name == "exec"@ || name == "e"@ {
            if words.len() >= 2 {
                CommandActionView::Exec { path: words[1] }
            } else {
                CommandActionView::ExecMissingPath
            }
        } else if name == "cd"@ {
            CommandActionView::ChangeDir {
                path: if words.len() >= 2 {
                    words[1]
                } else {
                    "~"@
                },
            }
        } else if name == "pwd"@ {
            CommandActionView::PrintWorkingDir
        } else if name == "r"@ || name == "run"@ {
            CommandActionView::Run {
                args: match spec_dashes_end(line, 0) {
                    Some(j) => spec_words(line.skip(j)),
                    None => Seq::empty(),
                },
            }
        } else if name == "quit"@ || name == "q"@ {
            CommandActionView::Quit
        } else {
            CommandActionView::Unknown {
                guess: if spec_best_guess(name).0 <= 2 {
                    Some(spec_best_guess(name).1)
                } else {
                    None
                },
            }
        }
    }
}

/// Decides what one entered line asks for. Every side effect — loading,
/// spawning, changing directory, printing — is the caller's.
pub fn process_command(line: &str) -> (r: CommandAction)
    requires
        line@.len() <= 0x10000000,
    ensures
        r@ == spec_action(line@),
{
    let words = split_words(line);
    if words.len() == 0 {
        return CommandAction::Nothing;
    }
    let name = words[0].clone();
    if name == String::from_str("exec") || name == String::from_str("e") {
        if words.len() >= 2 {
            return CommandAction::Exec { path: words[1].clone() };
        }
        return CommandAction::ExecMissingPath;
    }
    if name == String::from_str("cd") {
        let path = if words.len() >= 2 {
            words[1].clone()
        } else {
            String::from_str("~")
        };
        return CommandAction::ChangeDir { path };
    }
    if name == String::from_str("pwd") {
        return CommandAction::PrintWorkingDir;
    }
    if name == String::from_str("r") || name == String::from_str("run") {
        let len = line.unicode_len();
        let mut i: usize = 0;
        let mut cut: Option<usize> = None;
        while i + 1 < len
            invariant_except_break
                i <= len,
                len == line@.len(),
                len <= 0x10000000,
                cut is None,
                spec_dashes_end(line@, 0) == spec_dashes_end(line@, i as int),
            ensures
                len == line@.len(),
                match cut {
                    Some(j) => spec_dashes_end(line@, 0) == Some(j as int) && j <= len,
                    None => spec_dashes_end(line@, 0) is None,
                },
            decreases len - i,
        {
            if line.get_char(i) == '-' && line.get_char(i + 1) == '-' {
                cut = Some(i + 2);
                break ;
            }
            i = i + 1;
        }
        match cut {
            Some(j) => {
                let suffix = line.substring_char(j, len);
                let args = split_words(suffix);
                let r = CommandAction::Run { args };
                proof {
                    assert(suffix@ =~= line@.skip(j as int));
                    assert(r@->Run_args == spec_words(line@.skip(j as int)));
                }
                return r;
            },
            None => {
                let r = CommandAction::Run { args: Vec::new() };
                proof {
                    assert(r@->Run_args =~= Seq::<Seq<char>>::empty());
                }
                return r;
            },
        }
    }
    if name == String::from_str("quit") || name == String::from_str("q") {
        return CommandAction::Quit;
    }
    proof {
        lemma_words_bounded(line@, 0, Seq::<char>::empty());
        assert(name@.len() <= line@.len());
    }
    let guess = match possible_command(name.as_str()) {
        Some(g) => Some(g.to_owned()),
        None => None,
    };
    CommandAction::Unknown { guess }
}

/// The path with a leading `~` expanded to the home directory: `~` alone
/// becomes the home directory, `~/rest` is joined onto it (without a
/// doubled separator at the root), and anything else is untouched.
pub open spec fn spec_expand_homedir(path: Seq<char>, home: Seq<char>) -> Seq<char> {
    if path == "~"@ {
        home
    } else if is_prefix("~/"@, path) {
        if home == "/"@ {
            path.skip(1)
        } else {
            home + seq!['/'] + path.skip(2)
        }
    } else {
        path
    }
}

/// Expands a leading `~` to the given home directory. Where the home
/// directory comes from is the caller's.
pub fn expand_homedir(path: &str, home: &str) -> (r: String)
    ensures
        r@ == spec_expand_homedir(path@, home@),
{
    let tilde = String::from_str("~");
    let path_owned = path.to_owned();
    if path_owned == tilde {
        return home.to_owned();
    }
    if str_starts_with(path, "~/") {
        proof {
            reveal_strlit("~/");
            reveal_strlit("/");
        }
        let root = String::from_str("/");
        let home_owned = home.to_owned();
        let len = path.unicode_len();
        if home_owned == root {
            let r = path.substring_char(1, len).to_owned();
            proof {
                assert(r@ =~= path@.skip(1));
            }
            return r;
        }
        let rest = path.substring_char(2, len);
        let mut out = home.to_owned();
        out.push('/');
        out.append(rest);
        proof {
            assert(out@ =~= home@ + seq!['/'] + path@.skip(2));
        }
        return out;
    }
    path.to_owned()
}

} // verus!
