use editor_core::motion::{Action, Cmd, Dest, Dir, Motion};

#[test]
fn fresh_accumulator_has_default_verb() {
    let m = Motion::new();
    assert_eq!(m.buf[0], Cmd::Verb(Action::Move));
    assert_eq!(m.buf[1], Cmd::Unset);
    assert_eq!(m.buf[2], Cmd::Unset);
}

#[test]
fn direction_keys_emit_single_step_moves() {
    for (key, dir) in [('l', Dir::R), ('h', Dir::L), ('k', Dir::U), ('j', Dir::D)] {
        let mut m = Motion::new();
        let emitted = m.push(Some(key)).expect("direction key completes a motion");
        assert_eq!(emitted.buf[0], Cmd::Verb(Action::Move));
        assert_eq!(emitted.buf[1], Cmd::By(1));
        assert_eq!(emitted.buf[2], Cmd::ToDir(dir));
        assert_eq!(m, Motion::new());
    }
}

#[test]
fn count_prefixes_a_direction() {
    let mut m = Motion::new();
    assert!(m.push(Some('2')).is_none());
    assert!(m.push(Some('3')).is_none());
    let emitted = m.push(Some('j')).expect("motion after count");
    assert_eq!(emitted.buf[1], Cmd::By(23));
    assert_eq!(emitted.buf[2], Cmd::ToDir(Dir::D));
}

#[test]
fn count_accumulation_saturates() {
    let mut m = Motion::new();
    for _ in 0..30 {
        assert!(m.push(Some('9')).is_none());
    }
    let emitted = m.push(Some('l')).expect("motion after count");
    assert_eq!(emitted.buf[1], Cmd::By(usize::MAX));
}

#[test]
fn x_cuts_one_to_the_right() {
    let mut m = Motion::new();
    let emitted = m.push(Some('x')).expect("x completes");
    assert_eq!(emitted.buf[0], Cmd::Verb(Action::Cut));
    assert_eq!(emitted.buf[1], Cmd::By(1));
    assert_eq!(emitted.buf[2], Cmd::ToDir(Dir::R));
}

#[test]
fn x_takes_a_count() {
    let mut m = Motion::new();
    assert!(m.push(Some('4')).is_none());
    let emitted = m.push(Some('x')).expect("motion");
    assert_eq!(emitted.buf[1], Cmd::By(4));
}

#[test]
fn double_d_deletes_the_line() {
    let mut m = Motion::new();
    assert!(m.push(Some('d')).is_none());
    let emitted = m.push(Some('d')).expect("dd completes");
    assert_eq!(emitted.buf[0], Cmd::Verb(Action::Cut));
    assert_eq!(emitted.buf[1], Cmd::ToDest(Dest::Line));
    assert_eq!(emitted.buf[2], Cmd::Unset);
    assert_eq!(m, Motion::new());
}

#[test]
fn counted_double_d_deletes_rows_downward() {
    let mut m = Motion::new();
    assert!(m.push(Some('d')).is_none());
    assert!(m.push(Some('3')).is_none());
    let emitted = m.push(Some('d')).expect("d3d completes");
    assert_eq!(emitted.buf[0], Cmd::Verb(Action::Cut));
    assert_eq!(emitted.buf[1], Cmd::By(3));
    assert_eq!(emitted.buf[2], Cmd::ToDir(Dir::D));
}

#[test]
fn d_then_direction_cuts_that_way() {
    let mut m = Motion::new();
    assert!(m.push(Some('d')).is_none());
    let emitted = m.push(Some('l')).expect("dl completes");
    assert_eq!(emitted.buf[0], Cmd::Verb(Action::Cut));
    assert_eq!(emitted.buf[1], Cmd::By(1));
    assert_eq!(emitted.buf[2], Cmd::ToDir(Dir::R));
}

#[test]
fn underscore_jumps_to_text_start() {
    let mut m = Motion::new();
    let emitted = m.push(Some('_')).expect("underscore completes");
    assert_eq!(emitted.buf[0], Cmd::Verb(Action::Move));
    assert_eq!(emitted.buf[1], Cmd::ToDest(Dest::TxtStart));
}

#[test]
fn leading_zero_is_an_end_of_line_motion() {
    let mut m = Motion::new();
    let emitted = m.push(Some('0')).expect("leading zero completes");
    assert_eq!(emitted.buf[1], Cmd::ToDest(Dest::Endl));
}

#[test]
fn zero_after_count_is_a_digit() {
    let mut m = Motion::new();
    assert!(m.push(Some('1')).is_none());
    assert!(m.push(Some('0')).is_none());
    let emitted = m.push(Some('j')).expect("motion");
    assert_eq!(emitted.buf[1], Cmd::By(10));
}

#[test]
fn unknown_keystrokes_are_ignored() {
    let mut m = Motion::new();
    assert!(m.push(Some('q')).is_none());
    assert!(m.push(Some('!')).is_none());
    assert!(m.push(None).is_none());
    assert_eq!(m, Motion::new());
}

#[test]
fn count_survives_an_ignored_keystroke() {
    let mut m = Motion::new();
    assert!(m.push(Some('7')).is_none());
    assert!(m.push(Some('q')).is_none());
    let emitted = m.push(Some('h')).expect("motion");
    assert_eq!(emitted.buf[1], Cmd::By(7));
}

#[test]
fn is_disruptive_distinguishes_cut_from_move() {
    let mut m = Motion::new();
    let mv = m.push(Some('l')).unwrap();
    assert!(!mv.is_disruptive());
    let cut = m.push(Some('x')).unwrap();
    assert!(cut.is_disruptive());
}

#[test]
fn unwrap_dir_returns_the_direction() {
    assert_eq!(Cmd::ToDir(Dir::U).unwrap_dir(), Dir::U);
}
