use minishell::io::{remove_from_string_with_index, KeyEvent, LineEditor, TerminalAction};

fn feed(editor: &mut LineEditor, keys: &[KeyEvent]) -> Vec<(Vec<String>, bool)> {
    keys.iter()
        .map(|k| {
            let (actions, done) = editor.step(*k);
            (actions.iter().map(show).collect(), done)
        })
        .collect()
}

fn show(a: &TerminalAction) -> String {
    match a {
        TerminalAction::Text(t) => format!("text {:?}", t),
        TerminalAction::CursorLeft => "left".to_string(),
        TerminalAction::CursorRight => "right".to_string(),
        TerminalAction::DeletePrevious => "delete".to_string(),
        TerminalAction::ClearAfterCursor => "clear".to_string(),
    }
}

#[test]
fn typing_then_enter_reads_the_line() {
    let mut e = LineEditor::new();
    let out = feed(&mut e, &[KeyEvent::Char('l'), KeyEvent::Char('s'), KeyEvent::Char('\n')]);
    assert_eq!(out[0], (vec!["text \"l\"".to_string()], false));
    assert_eq!(out[2], (vec!["text \"\\n\\r\"".to_string()], true));
    assert_eq!(e.text(), "ls");
    assert_eq!(e.cursor, 2);
}

#[test]
fn backspace_at_the_end_takes_back_the_last_character() {
    let mut e = LineEditor::new();
    feed(&mut e, &[KeyEvent::Char('a'), KeyEvent::Char('b')]);
    let out = feed(&mut e, &[KeyEvent::Backspace]);
    assert_eq!(out[0].0, vec!["delete".to_string(), "clear".to_string(), "text \"\"".to_string()]);
    assert_eq!(e.text(), "a");
    assert_eq!(e.cursor, 1);
}

#[test]
fn backspace_inside_the_line_redraws_the_rest() {
    let mut e = LineEditor::new();
    feed(&mut e, &[KeyEvent::Char('a'), KeyEvent::Char('b'), KeyEvent::Char('c'), KeyEvent::Left]);
    let out = feed(&mut e, &[KeyEvent::Backspace]);
    assert_eq!(
        out[0].0,
        vec!["delete".to_string(), "clear".to_string(), "text \"c\"".to_string(), "left".to_string()]
    );
    assert_eq!(e.text(), "ac");
    assert_eq!(e.cursor, 1);
}

#[test]
fn backspace_at_the_start_does_nothing() {
    let mut e = LineEditor::new();
    let out = feed(&mut e, &[KeyEvent::Backspace]);
    assert!(out[0].0.is_empty());
    assert_eq!(e.text(), "");
}

#[test]
fn right_stops_at_the_end_of_the_line() {
    let mut e = LineEditor::new();
    feed(&mut e, &[KeyEvent::Char('x'), KeyEvent::Left]);
    let out = feed(&mut e, &[KeyEvent::Right, KeyEvent::Right]);
    assert_eq!(out[0].0, vec!["right".to_string()]);
    assert!(out[1].0.is_empty());
    assert_eq!(e.cursor, 1);
}

#[test]
fn characters_are_appended_even_after_moving_left() {
    let mut e = LineEditor::new();
    feed(&mut e, &[KeyEvent::Char('a'), KeyEvent::Char('b'), KeyEvent::Left, KeyEvent::Char('c')]);
    assert_eq!(e.text(), "abc");
    assert_eq!(e.cursor, 2);
}

#[test]
fn other_keys_do_nothing() {
    let mut e = LineEditor::new();
    let out = feed(&mut e, &[KeyEvent::Other]);
    assert_eq!(out[0], (vec![], false));
}

#[test]
fn backspace_removes_at_the_byte_that_the_cursor_names() {
    let mut e = LineEditor::new();
    feed(&mut e, &[KeyEvent::Char('é'), KeyEvent::Char('x'), KeyEvent::Char('y')]);
    assert!(e.can_step(KeyEvent::Backspace));
    let out = feed(&mut e, &[KeyEvent::Backspace]);
    assert_eq!(out[0].0, vec!["delete".to_string(), "clear".to_string(), "text \"y\"".to_string()]);
    assert_eq!(e.text(), "éy");
    assert_eq!(e.cursor, 2);
}

#[test]
fn backspace_inside_a_character_is_not_defined() {
    let mut e = LineEditor::new();
    feed(&mut e, &[KeyEvent::Char('é'), KeyEvent::Char('x')]);
    assert!(!e.can_step(KeyEvent::Backspace));
    assert!(LineEditor::new().can_step(KeyEvent::Backspace));
    assert!(!LineEditor::new().can_step(KeyEvent::Left));
}

#[test]
fn removing_at_a_byte_index() {
    let mut s: Vec<char> = "éab".chars().collect();
    remove_from_string_with_index(&mut s, 2);
    assert_eq!(s.iter().collect::<String>(), "éb");
}

#[test]
fn removing_a_character_by_index() {
    let mut s: Vec<char> = "héllo".chars().collect();
    remove_from_string_with_index(&mut s, 1);
    assert_eq!(s.iter().collect::<String>(), "hllo");
    remove_from_string_with_index(&mut s, 3);
    assert_eq!(s.iter().collect::<String>(), "hll");
    remove_from_string_with_index(&mut s, 9);
    assert_eq!(s.iter().collect::<String>(), "hll");
}
