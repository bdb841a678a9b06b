//! Input handling: the editor's mode, the logical input events the
//! orchestrating shell reports, and the state machine that folds them into
//! buffer commands.

use vstd::prelude::*;

use crate::motion::{cutback, initial, move_d, move_l, move_r, move_u, pending, push_spec, Action,
    Cmd, Dir, Motion};

verus! {

/// The editing mode. `Insert` enters text literally and lets the cursor
/// rest one position past the last character; `Edit` composes commands and
/// clamps the cursor to the last character of its row.
#[derive(Debug, Clone, Copy, PartialEq, Eq, Structural)]
pub enum Mode {
    Insert,
    Edit,
}

/// What the orchestrator should do after one input event was handled.
#[derive(Debug, Clone, Copy, PartialEq, Eq)]
pub enum HandleResult {
    Motion(crate::motion::Motion),
    Insert,
    Quit,
    SetEditMode,
    Idle,
    NewlineSplit,
    NewlineNoSplit,
    NewlineUp,
    Undo,
    Redo,
    PrintHistory,
    Command,
}

/// A logical key, as the shell reports it. Modifier chords the shell
/// interprets itself (such as a force-quit chord) arrive as `Quit`.
#[derive(Debug, Clone, Copy, PartialEq, Eq, Structural)]
pub enum Key {
    Escape,
    Return,
    Backspace,
    Tab,
    Right,
    Left,
    Up,
    Down,
    Other,
}

/// A logical input event.
#[derive(Debug, Clone, PartialEq, Eq)]
pub enum InputEvent {
    TextInput(Vec<char>),
    KeyDown(Key),
    Quit,
}

/// Mathematical state of the event handler.
pub ghost struct HandlerView {
    pub mode: Mode,
    pub motion: Motion,
    pub command: Seq<char>,
    pub cmd_active: bool,
}

/// The handler's transition function: from its state, one input event and
/// the pending insertion text, to the next state, the new insertion text
/// and what the orchestrator should do.
pub open spec fn handle_spec(h: HandlerView, ev: InputEvent, mb: Seq<char>) -> (
    HandlerView,
    Seq<char>,
    HandleResult,
) {
    match ev {
        InputEvent::Quit => (h, mb, HandleResult::Quit),
        InputEvent::TextInput(text) => {
            if h.mode == Mode::Edit {
                if h.cmd_active {
                    (
                        HandlerView { command: h.command + text@, ..h },
                        mb,
                        HandleResult::Idle,
                    )
                } else if text@ == seq!['a'] {
                    (HandlerView { mode: Mode::Insert, ..h }, mb, HandleResult::Idle)
                } else if text@ == seq!['i'] {
                    (
                        HandlerView { mode: Mode::Insert, ..h },
                        mb,
                        HandleResult::Motion(
                            (Motion {
                                buf: [Cmd::Verb(Action::Move), Cmd::By(1), Cmd::ToDir(Dir::L)],
                            }),
                        ),
                    )
                } else if text@ == seq!['o'] {
                    (
                        HandlerView { mode: Mode::Insert, ..h },
                        mb,
                        HandleResult::NewlineNoSplit,
                    )
                } else if text@ == seq!['O'] {
                    (HandlerView { mode: Mode::Insert, ..h }, mb, HandleResult::NewlineUp)
                } else if text@ == seq!['u'] {
                    (h, mb, HandleResult::Undo)
                } else if text@ == seq!['U'] {
                    (h, mb, HandleResult::Redo)
                } else if text@ == seq!['H'] {
                    (h, mb, HandleResult::PrintHistory)
                } else if text@ == seq![':'] {
                    (HandlerView { cmd_active: true, ..h }, mb, HandleResult::Idle)
                } else {
                    let c = if text@.len() > 0 {
                        Option::Some(text@[0])
                    } else {
                        Option::<char>::None
                    };
                    let r = push_spec(h.motion, c);
                    (
                        HandlerView { motion: r.0, ..h },
                        mb,
                        if r.1 is Some {
                            HandleResult::Motion(r.1.unwrap())
                        } else {
                            HandleResult::Idle
                        },
                    )
                }
            } else {
                (h, mb + text@, HandleResult::Insert)
            }
        },
        InputEvent::KeyDown(key) => match key {
            Key::Escape => match h.mode {
                Mode::Edit => (
                    HandlerView { command: Seq::empty(), cmd_active: false, ..h },
                    mb,
                    HandleResult::Motion(
                        (Motion { buf: [Cmd::Verb(Action::Move), Cmd::By(1), Cmd::ToDir(Dir::L)] }),
                    ),
                ),
                Mode::Insert => (
                    HandlerView { command: Seq::empty(), mode: Mode::Edit, ..h },
                    mb,
                    HandleResult::SetEditMode,
                ),
            },
            Key::Return => match h.mode {
                Mode::Insert => (h, mb, HandleResult::NewlineSplit),
                Mode::Edit => if h.command.len() > 0 {
                    (
                        HandlerView { command: Seq::empty(), cmd_active: false, ..h },
                        mb + h.command,
                        HandleResult::Command,
                    )
                } else {
                    (HandlerView { cmd_active: false, ..h }, mb, HandleResult::Idle)
                },
            },
            Key::Backspace => match h.mode {
                Mode::Insert => (
                    h,
                    mb,
                    HandleResult::Motion(
                        (Motion { buf: [Cmd::Verb(Action::Cut), Cmd::By(1), Cmd::ToDir(Dir::L)] }),
                    ),
                ),
                Mode::Edit => if h.cmd_active && h.command.len() == 0 {
                    (HandlerView { cmd_active: false, ..h }, mb, HandleResult::Idle)
                } else {
                    (
                        HandlerView {
                            command: if h.cmd_active {
                                h.command.drop_last()
                            } else {
                                h.command
                            },
                            ..h
                        },
                        mb,
                        HandleResult::Motion(
                            (Motion {
                                buf: [Cmd::Verb(Action::Move), Cmd::By(1), Cmd::ToDir(Dir::L)],
                            }),
                        ),
                    )
                },
            },
            Key::Tab => match h.mode {
                Mode::Insert => (h, mb + seq![' ', ' '], HandleResult::Insert),
                Mode::Edit => (h, mb, HandleResult::Idle),
            },
            Key::Right => (
                h,
                mb,
                HandleResult::Motion(
                    (Motion { buf: [Cmd::Verb(Action::Move), Cmd::By(1), Cmd::ToDir(Dir::R)] }),
                ),
            ),
            Key::Left => (
                h,
                mb,
                HandleResult::Motion(
                    (Motion { buf: [Cmd::Verb(Action::Move), Cmd::By(1), Cmd::ToDir(Dir::L)] }),
                ),
            ),
            Key::Up => (
                h,
                mb,
                HandleResult::Motion(
                    (Motion { buf: [Cmd::Verb(Action::Move), Cmd::By(1), Cmd::ToDir(Dir::U)] }),
                ),
            ),
            Key::Down => (
                h,
                mb,
                HandleResult::Motion(
                    (Motion { buf: [Cmd::Verb(Action::Move), Cmd::By(1), Cmd::ToDir(Dir::D)] }),
                ),
            ),
            Key::Other => (h, mb, HandleResult::Idle),
        },
    }
}

/// The input-event state machine: the mode, the motion accumulator, and
/// the pending `:` command line.
pub struct EventHandler {
    mode: Mode,
    motion: Motion,
    command: Vec<char>,
    cmd_active: bool,
}

impl View for EventHandler {
    type V = HandlerView;

    closed spec fn view(&self) -> HandlerView {
        HandlerView {
            mode: self.mode,
            motion: self.motion,
            command: self.command@,
            cmd_active: self.cmd_active,
        }
    }
}

impl EventHandler {
    /// Handler invariant: the motion accumulator is a valid pending
    /// state.
    pub open spec fn wf(self) -> bool {
        pending(self@.motion)
    }

    /// A fresh handler in Edit mode with an empty accumulator.
    pub fn new() -> (h: EventHandler)
        ensures
            h.wf(),
            h@.mode == Mode::Edit,
            h@.motion == initial(),
            h@.command =~= Seq::<char>::empty(),
            h@.cmd_active == false,
    {
        EventHandler {
            mode: Mode::Edit,
            motion: Motion::new(),
            command: Vec::new(),
            cmd_active: false,
        }
    }

    /// The pending `:` command line.
    pub fn command(&self) -> (r: &Vec<char>)
        ensures
            r@ == self@.command,
    {
        &self.command
    }

    /// Whether a `:` command line is being composed.
    pub fn cmd_active(&self) -> (r: bool)
        ensures
            r == self@.cmd_active,
    {
        self.cmd_active
    }

    /// The current mode.
    pub fn mode(&self) -> (r: Mode)
        ensures
            r == self@.mode,
    {
        self.mode
    }

    /// Fold one input event into the handler state. Text appended for the
    /// orchestrator to insert goes into `m_buff`; the returned result says
    /// what to do with the buffer and history.
    pub fn handle(&mut self, event: InputEvent, m_buff: &mut Vec<char>) -> (r: HandleResult)
        requires
            old(self).wf(),
        ensures
            final(self).wf(),
            ({
                let step = handle_spec(old(self)@, event, old(m_buff)@);
                final(self)@ == step.0 && final(m_buff)@ == step.1 && r == step.2
            }),
    {
        match event {
            InputEvent::Quit => HandleResult::Quit,
            InputEvent::TextInput(text) => {
                if matches!(self.mode, Mode::Edit) {
                    if self.cmd_active {
                        crate::chars::extend_chars(&mut self.command, &text);
                        return HandleResult::Idle;
                    }
                    let single: Option<char> = if text.len() == 1 {
                        Some(text[0])
                    } else {
                        None
                    };
                    proof {
                        if text@.len() == 1 {
                            assert(text@ =~= seq![text@[0]]);
                        }
                    }
                    match single {
                        Some('a') => {
                            self.mode = Mode::Insert;
                            HandleResult::Idle
                        },
                        Some('i') => {
                            self.mode = Mode::Insert;
                            HandleResult::Motion(move_l())
                        },
                        Some('o') => {
                            self.mode = Mode::Insert;
                            HandleResult::NewlineNoSplit
                        },
                        Some('O') => {
                            self.mode = Mode::Insert;
                            HandleResult::NewlineUp
                        },
                        Some('u') => HandleResult::Undo,
                        Some('U') => HandleResult::Redo,
                        Some('H') => HandleResult::PrintHistory,
                        Some(':') => {
                            self.cmd_active = true;
                            HandleResult::Idle
                        },
                        _ => {
                            let c: Option<char> = if text.len() > 0 {
                                Some(text[0])
                            } else {
                                None
                            };
                            match self.motion.push(c) {
                                Some(motion) => HandleResult::Motion(motion),
                                None => HandleResult::Idle,
                            }
                        },
                    }
                } else {
                    crate::chars::extend_chars(m_buff, &text);
                    HandleResult::Insert
                }
            },
            InputEvent::KeyDown(key) => match key {
                Key::Escape => {
                    self.command = Vec::new();
                    proof {
                        assert(self@.command =~= Seq::<char>::empty());
                    }
                    match self.mode {
                        Mode::Edit => {
                            self.cmd_active = false;
                            HandleResult::Motion(move_l())
                        },
                        Mode::Insert => {
                            self.mode = Mode::Edit;
                            HandleResult::SetEditMode
                        },
                    }
                },
                Key::Return => match self.mode {
                    Mode::Insert => HandleResult::NewlineSplit,
                    Mode::Edit => {
                        let mut result = HandleResult::Idle;
                        if self.command.len() > 0 {
                            crate::chars::extend_chars(m_buff, &self.command);
                            self.command = Vec::new();
                            proof {
                                assert(self@.command =~= Seq::<char>::empty());
                            }
                            result = HandleResult::Command;
                        }
                        self.cmd_active = false;
                        result
                    },
                },
                Key::Backspace => match self.mode {
                    Mode::Insert => HandleResult::Motion(cutback()),
                    Mode::Edit => {
                        if self.cmd_active && self.command.len() == 0 {
                            self.cmd_active = false;
                            HandleResult::Idle
                        } else {
                            if self.cmd_active {
                                self.command.pop();
                            }
                            HandleResult::Motion(move_l())
                        }
                    },
                },
                Key::Tab => match self.mode {
                    Mode::Insert => {
                        m_buff.push(' ');
                        m_buff.push(' ');
                        proof {
                            assert(m_buff@ =~= old(m_buff)@ + seq![' ', ' ']);
                        }
                        HandleResult::Insert
                    },
                    Mode::Edit => HandleResult::Idle,
                },
                Key::Right => HandleResult::Motion(move_r()),
                Key::Left => HandleResult::Motion(move_l()),
                Key::Up => HandleResult::Motion(move_u()),
                Key::Down => HandleResult::Motion(move_d()),
                Key::Other => HandleResult::Idle,
            },
        }
    }
}

} // verus!
