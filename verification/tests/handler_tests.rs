use editor_core::handler::{EventHandler, HandleResult, InputEvent, Key, Mode};
use editor_core::motion::{Action, Cmd, Dir};

fn chars(s: &str) -> Vec<char> {
    s.chars().collect()
}

fn text_event(s: &str) -> InputEvent {
    InputEvent::TextInput(chars(s))
}

#[test]
fn starts_in_edit_mode() {
    let h = EventHandler::new();
    assert_eq!(h.mode(), Mode::Edit);
    assert!(!h.cmd_active());
    assert!(h.command().is_empty());
}

#[test]
fn a_enters_insert_mode() {
    let mut h = EventHandler::new();
    let mut mb: Vec<char> = Vec::new();
    let r = h.handle(text_event("a"), &mut mb);
    assert_eq!(r, HandleResult::Idle);
    assert_eq!(h.mode(), Mode::Insert);
}

#[test]
fn i_enters_insert_mode_and_steps_left() {
    let mut h = EventHandler::new();
    let mut mb: Vec<char> = Vec::new();
    let r = h.handle(text_event("i"), &mut mb);
    assert_eq!(h.mode(), Mode::Insert);
    match r {
        HandleResult::Motion(m) => {
            assert_eq!(m.buf[0], Cmd::Verb(Action::Move));
            assert_eq!(m.buf[2], Cmd::ToDir(Dir::L));
        }
        other => panic!("expected a motion, got {:?}", other),
    }
}

#[test]
fn text_in_insert_mode_goes_to_the_insertion_buffer() {
    let mut h = EventHandler::new();
    let mut mb: Vec<char> = Vec::new();
    h.handle(text_event("a"), &mut mb);
    let r = h.handle(text_event("hi"), &mut mb);
    assert_eq!(r, HandleResult::Insert);
    assert_eq!(mb, chars("hi"));
}

#[test]
fn escape_returns_to_edit_mode() {
    let mut h = EventHandler::new();
    let mut mb: Vec<char> = Vec::new();
    h.handle(text_event("a"), &mut mb);
    let r = h.handle(InputEvent::KeyDown(Key::Escape), &mut mb);
    assert_eq!(r, HandleResult::SetEditMode);
    assert_eq!(h.mode(), Mode::Edit);
}

#[test]
fn edit_keystrokes_feed_the_motion_grammar() {
    let mut h = EventHandler::new();
    let mut mb: Vec<char> = Vec::new();
    assert_eq!(h.handle(text_event("2"), &mut mb), HandleResult::Idle);
    let r = h.handle(text_event("j"), &mut mb);
    match r {
        HandleResult::Motion(m) => {
            assert_eq!(m.buf[1], Cmd::By(2));
            assert_eq!(m.buf[2], Cmd::ToDir(Dir::D));
        }
        other => panic!("expected a motion, got {:?}", other),
    }
}

#[test]
fn undo_redo_and_history_keys() {
    let mut h = EventHandler::new();
    let mut mb: Vec<char> = Vec::new();
    assert_eq!(h.handle(text_event("u"), &mut mb), HandleResult::Undo);
    assert_eq!(h.handle(text_event("U"), &mut mb), HandleResult::Redo);
    assert_eq!(h.handle(text_event("H"), &mut mb), HandleResult::PrintHistory);
}

#[test]
fn colon_collects_a_command_until_return() {
    let mut h = EventHandler::new();
    let mut mb: Vec<char> = Vec::new();
    assert_eq!(h.handle(text_event(":"), &mut mb), HandleResult::Idle);
    assert!(h.cmd_active());
    assert_eq!(h.handle(text_event("w"), &mut mb), HandleResult::Idle);
    assert_eq!(h.handle(text_event("q"), &mut mb), HandleResult::Idle);
    assert_eq!(h.command(), &chars("wq"));
    let r = h.handle(InputEvent::KeyDown(Key::Return), &mut mb);
    assert_eq!(r, HandleResult::Command);
    assert_eq!(mb, chars("wq"));
    assert!(!h.cmd_active());
    assert!(h.command().is_empty());
}

#[test]
fn return_in_edit_mode_without_command_does_nothing() {
    let mut h = EventHandler::new();
    let mut mb: Vec<char> = Vec::new();
    let r = h.handle(InputEvent::KeyDown(Key::Return), &mut mb);
    assert_eq!(r, HandleResult::Idle);
    assert!(mb.is_empty());
}

#[test]
fn return_in_insert_mode_splits_the_line() {
    let mut h = EventHandler::new();
    let mut mb: Vec<char> = Vec::new();
    h.handle(text_event("a"), &mut mb);
    let r = h.handle(InputEvent::KeyDown(Key::Return), &mut mb);
    assert_eq!(r, HandleResult::NewlineSplit);
}

#[test]
fn backspace_in_insert_mode_cuts_leftward() {
    let mut h = EventHandler::new();
    let mut mb: Vec<char> = Vec::new();
    h.handle(text_event("a"), &mut mb);
    let r = h.handle(InputEvent::KeyDown(Key::Backspace), &mut mb);
    match r {
        HandleResult::Motion(m) => {
            assert_eq!(m.buf[0], Cmd::Verb(Action::Cut));
            assert_eq!(m.buf[2], Cmd::ToDir(Dir::L));
        }
        other => panic!("expected a cut motion, got {:?}", other),
    }
}

#[test]
fn backspace_shortens_a_pending_command() {
    let mut h = EventHandler::new();
    let mut mb: Vec<char> = Vec::new();
    h.handle(text_event(":"), &mut mb);
    h.handle(text_event("x"), &mut mb);
    h.handle(InputEvent::KeyDown(Key::Backspace), &mut mb);
    assert!(h.command().is_empty());
    assert!(h.cmd_active());
    // With the command empty, one more backspace leaves command entry.
    h.handle(InputEvent::KeyDown(Key::Backspace), &mut mb);
    assert!(!h.cmd_active());
}

#[test]
fn tab_in_insert_mode_inserts_two_spaces() {
    let mut h = EventHandler::new();
    let mut mb: Vec<char> = Vec::new();
    h.handle(text_event("a"), &mut mb);
    let r = h.handle(InputEvent::KeyDown(Key::Tab), &mut mb);
    assert_eq!(r, HandleResult::Insert);
    assert_eq!(mb, chars("  "));
    let r2 = h.handle(InputEvent::KeyDown(Key::Escape), &mut mb);
    assert_eq!(r2, HandleResult::SetEditMode);
    assert_eq!(h.handle(InputEvent::KeyDown(Key::Tab), &mut mb), HandleResult::Idle);
}

#[test]
fn arrow_keys_move_in_both_modes() {
    let mut h = EventHandler::new();
    let mut mb: Vec<char> = Vec::new();
    for (key, dir) in [
        (Key::Right, Dir::R),
        (Key::Left, Dir::L),
        (Key::Up, Dir::U),
        (Key::Down, Dir::D),
    ] {
        match h.handle(InputEvent::KeyDown(key), &mut mb) {
            HandleResult::Motion(m) => assert_eq!(m.buf[2], Cmd::ToDir(dir)),
            other => panic!("expected a motion, got {:?}", other),
        }
    }
}

#[test]
fn quit_event_passes_through() {
    let mut h = EventHandler::new();
    let mut mb: Vec<char> = Vec::new();
    assert_eq!(h.handle(InputEvent::Quit, &mut mb), HandleResult::Quit);
}

#[test]
fn other_keys_do_nothing() {
    let mut h = EventHandler::new();
    let mut mb: Vec<char> = Vec::new();
    assert_eq!(h.handle(InputEvent::KeyDown(Key::Other), &mut mb), HandleResult::Idle);
}
