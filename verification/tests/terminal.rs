use bite::commands::{expand_homedir, possible_command, process_command, split_words, CommandAction};
use bite::terminal::Terminal;
use bite::tokens::{Color, ColorScheme, Token, TokenStream, IBM};
use bite::widgets::terminal::Terminal as ConsoleTerminal;

#[test]
fn editing_inserts_at_the_cursor() {
    let mut term = Terminal::new();
    term.append("hello");
    term.move_left();
    term.move_left();
    term.append("XY");
    assert_eq!(term.current_line(), "helXYlo");
}

#[test]
fn backspace_removes_left_of_the_cursor() {
    let mut term = Terminal::new();
    term.append("abc");
    term.move_left();
    term.backspace();
    assert_eq!(term.current_line(), "ac");
    term.move_to_start();
    term.backspace();
    assert_eq!(term.current_line(), "ac");
}

#[test]
fn cursor_movement_stays_in_bounds() {
    let mut term = Terminal::new();
    term.append("ab");
    term.move_right();
    term.move_right();
    term.move_to_start();
    term.move_left();
    term.move_to_end();
    term.backspace();
    assert_eq!(term.current_line(), "a");
}

#[test]
fn commit_records_commands_for_taking() {
    let mut term = Terminal::new();
    term.append("first");
    term.commit();
    term.append("second");
    term.commit();
    let taken = term.take_commands();
    assert_eq!(taken, vec!["first".to_string(), "second".to_string()]);
    let empty = term.take_commands();
    assert!(empty.is_empty());
}

#[test]
fn commit_of_a_scrolled_selection_replaces_the_top_line() {
    let mut term = Terminal::with_history(vec!["older".to_string()]);
    term.scroll_to_prev_cmd();
    assert_eq!(term.current_line(), "older");
    term.commit();
    let taken = term.take_commands();
    assert_eq!(taken, vec!["older".to_string()]);
}

#[test]
fn scrolling_steps_through_the_history() {
    let mut term = Terminal::with_history(vec!["one".to_string(), "two".to_string()]);
    term.scroll_to_prev_cmd();
    assert_eq!(term.current_line(), "two");
    term.scroll_to_prev_cmd();
    assert_eq!(term.current_line(), "one");
    term.scroll_to_next_cmd();
    assert_eq!(term.current_line(), "two");
}

#[test]
fn format_splits_around_the_selected_character() {
    let mut term = Terminal::new();
    term.append("abc");
    term.move_left();
    term.move_left();
    let (left, select, right) = term.format();
    assert_eq!(left, "a");
    assert_eq!(select, "b");
    assert_eq!(right, "c");
    term.move_to_end();
    let (left, select, right) = term.format();
    assert_eq!(left, "abc");
    assert_eq!(select, " ");
    assert_eq!(right, "");
}

#[test]
fn reset_line_empties_only_the_current_line() {
    let mut term = Terminal::new();
    term.append("junk");
    term.reset_line();
    assert_eq!(term.current_line(), "");
}

#[test]
fn console_suggests_the_latest_matching_history_line() {
    let mut console = ConsoleTerminal::with_history(vec![
        "help".to_string(),
        "hexdump".to_string(),
    ]);
    console.append("he");
    assert_eq!(console.current_line(), "he");
    assert_eq!(console.suggestion(), "xdump");
    console.autocomplete();
    assert_eq!(console.current_line(), "hexdump");
    assert_eq!(console.suggestion(), "");
}

#[test]
fn console_right_arrow_accepts_a_pending_suggestion() {
    let mut console = ConsoleTerminal::with_history(vec!["quit".to_string()]);
    console.append("qu");
    console.move_right();
    assert_eq!(console.current_line(), "quit");
}

#[test]
fn console_word_movement_crosses_whitespace() {
    let mut console = ConsoleTerminal::new();
    console.append("exec /bin/ls");
    assert_eq!(console.cursor(), 12);
    console.move_left_next_word();
    assert_eq!(console.cursor(), 5);
    console.move_left_next_word();
    assert_eq!(console.cursor(), 0);
    console.move_right_next_word();
    assert_eq!(console.cursor(), 4);
}

#[test]
fn console_prompt_accumulates_output() {
    let mut console = ConsoleTerminal::new();
    console.write_str("loaded.\n");
    console.write_str("(ready) ");
    assert_eq!(console.prompt(), "loaded.\n(ready) ");
    console.clear();
    assert_eq!(console.prompt(), "");
    assert_eq!(console.current_line(), "");
}

#[test]
fn console_escapes_entered_control_characters() {
    let mut console = ConsoleTerminal::new();
    console.append("a\tb");
    assert_eq!(console.current_line(), "a\\tb");
}

#[test]
fn console_commits_and_takes_like_the_plain_buffer() {
    let mut console = ConsoleTerminal::new();
    console.append("exec target");
    console.commit();
    let taken = console.take_commands();
    assert_eq!(taken, vec!["exec target".to_string()]);
}

#[test]
fn splitting_ignores_repeated_whitespace() {
    let words = split_words("  exec   /bin/ls ");
    assert_eq!(words, vec!["exec".to_string(), "/bin/ls".to_string()]);
    assert!(split_words("   ").is_empty());
}

#[test]
fn commands_are_recognized() {
    assert!(matches!(process_command(""), CommandAction::Nothing));
    match process_command("exec /bin/ls") {
        CommandAction::Exec { path } => assert_eq!(path, "/bin/ls"),
        other => panic!("unexpected action {other:?}"),
    }
    assert!(matches!(process_command("e"), CommandAction::ExecMissingPath));
    match process_command("cd") {
        CommandAction::ChangeDir { path } => assert_eq!(path, "~"),
        other => panic!("unexpected action {other:?}"),
    }
    assert!(matches!(process_command("pwd"), CommandAction::PrintWorkingDir));
    assert!(matches!(process_command("quit"), CommandAction::Quit));
    assert!(matches!(process_command("q"), CommandAction::Quit));
}

#[test]
fn run_collects_arguments_after_the_dashes() {
    match process_command("run -- --verbose x") {
        CommandAction::Run { args } => {
            assert_eq!(args, vec!["--verbose".to_string(), "x".to_string()])
        },
        other => panic!("unexpected action {other:?}"),
    }
    match process_command("r") {
        CommandAction::Run { args } => assert!(args.is_empty()),
        other => panic!("unexpected action {other:?}"),
    }
    // the split happens at the first double dash anywhere in the line
    match process_command("run a--b c") {
        CommandAction::Run { args } => {
            assert_eq!(args, vec!["b".to_string(), "c".to_string()])
        },
        other => panic!("unexpected action {other:?}"),
    }
}

#[test]
fn unknown_commands_get_a_near_guess() {
    match process_command("pdw") {
        CommandAction::Unknown { guess } => assert_eq!(guess.as_deref(), Some("pwd")),
        other => panic!("unexpected action {other:?}"),
    }
    match process_command("flabbergast") {
        CommandAction::Unknown { guess } => assert!(guess.is_none()),
        other => panic!("unexpected action {other:?}"),
    }
}

#[test]
fn close_guesses_stop_at_two_edits() {
    assert_eq!(possible_command("exeb"), Some("exec"));
    assert_eq!(possible_command("qit"), Some("quit"));
    assert_eq!(possible_command("zzzzzz"), None);
}

#[test]
fn homedir_expansion() {
    assert_eq!(expand_homedir("~", "/home/me"), "/home/me");
    assert_eq!(expand_homedir("~/x/y", "/home/me"), "/home/me/x/y");
    assert_eq!(expand_homedir("~/x", "/"), "/x");
    assert_eq!(expand_homedir("/abs", "/home/me"), "/abs");
    assert_eq!(expand_homedir("~user", "/home/me"), "~user");
}

#[test]
fn tokens_compare_by_text_alone() {
    let a = Token::from_str("x", Color::Red);
    let b = Token::from_string("x".to_string(), Color::Blue);
    assert_eq!(a, b);
    let c = Token::from_str("y", Color::Red);
    assert_ne!(a, c);
}

#[test]
fn token_streams_concatenate_their_text() {
    let mut stream = TokenStream::new();
    stream.push("ab", Color::White);
    stream.push_owned("cd".to_string(), Color::Red);
    assert_eq!(stream.text(), "abcd");
    stream.pop();
    assert_eq!(stream.text(), "ab");
    stream.clear();
    assert_eq!(stream.len(), 0);
}

#[test]
fn the_palette_is_fixed() {
    assert_eq!(Color::Magenta.rgb(), (0xf5, 0x12, 0x81));
    assert_eq!(Color::Gray40.rgb(), (0x40, 0x40, 0x40));
    assert_eq!(IBM::item(), Color::Magenta);
    assert_eq!(IBM::root(), Color::Purple);
    assert_eq!(IBM::segment(), Color::Green);
}
