//! Motion grammar: a three-slot accumulator (verb, count, target) that folds
//! keystrokes into completed editing motions.

use vstd::prelude::*;

verus! {

/// Movement direction.
#[derive(Debug, Clone, Copy, PartialEq, Eq, Structural)]
pub enum Dir {
    U,
    D,
    L,
    R,
}

/// Named destination of a motion without a direction.
#[derive(Debug, Clone, Copy, PartialEq, Eq, Structural)]
pub enum Dest {
    Line,
    TxtStart,
    Endl,
}

/// The action kind of a motion.
#[derive(Debug, Clone, Copy, PartialEq, Eq, Structural)]
pub enum Action {
    Move,
    Cut,
}

/// One slot of the accumulator. `Unset` marks a slot not yet filled.
#[derive(Debug, Clone, Copy, PartialEq, Eq, Structural)]
pub enum Cmd {
    Verb(Action),
    By(usize),
    ToDest(Dest),
    ToDir(Dir),
    Unset,
}

impl Cmd {
    /// The direction held in a `ToDir` slot.
    pub fn unwrap_dir(&self) -> (d: Dir)
        requires
            self is ToDir,
        ensures
            *self == Cmd::ToDir(d),
    {
        match self {
            Cmd::ToDir(d) => *d,
            _ => unreached(),
        }
    }
}

/// A three-slot editing command: `[verb, count-or-destination, direction]`.
#[derive(Debug, Clone, Copy, PartialEq, Eq)]
pub struct Motion {
    pub buf: [Cmd; 3],
}

/// A still-accumulating state: a verb is always present, the middle slot is
/// at most a count, and the direction slot is untouched.
pub open spec fn pending(m: Motion) -> bool {
    &&& m.buf[0] is Verb
    &&& (m.buf[1] is Unset || m.buf[1] is By)
    &&& m.buf[2] is Unset
}

/// A motion fit to be emitted: a verb together with either a counted
/// direction or a destination.
pub open spec fn complete(m: Motion) -> bool {
    &&& m.buf[0] is Verb
    &&& {
        ||| (m.buf[1] is By && m.buf[2] is ToDir)
        ||| (m.buf[1] is ToDest && m.buf[2] is Unset)
    }
}

/// The empty accumulator: a default verb of `Move`, nothing else.
pub open spec fn initial() -> Motion {
    Motion { buf: [Cmd::Verb(Action::Move), Cmd::Unset, Cmd::Unset] }
}

/// `n * 10 + d`, capped at the largest representable count.
pub open spec fn sat_count(n: usize, d: usize) -> usize {
    if n * 10 + d > usize::MAX {
        usize::MAX as usize
    } else {
        (n * 10 + d) as usize
    }
}

/// The middle slot after a directional keystroke: an accumulated count is
/// kept, otherwise the default count of one is filled in.
pub open spec fn count_or_one(slot: Cmd) -> Cmd {
    if slot is By {
        slot
    } else {
        Cmd::By(1)
    }
}

/// The grammar's transition function: the accumulator after a keystroke,
/// and the motion emitted by it, if the keystroke completed one.
pub open spec fn push_spec(m: Motion, c: Option<char>) -> (Motion, Option<Motion>) {
    if c is None {
        (m, Option::None)
    } else {
        let ch = c.unwrap();
        if ch == 'x' {
            (initial(), Option::Some(
                (Motion { buf: [Cmd::Verb(Action::Cut), count_or_one(m.buf[1]), Cmd::ToDir(Dir::R)] }),
            ))
        } else if ch == 'l' {
            (initial(), Option::Some(
                (Motion { buf: [m.buf[0], count_or_one(m.buf[1]), Cmd::ToDir(Dir::R)] }),
            ))
        } else if ch == 'h' {
            (initial(), Option::Some(
                (Motion { buf: [m.buf[0], count_or_one(m.buf[1]), Cmd::ToDir(Dir::L)] }),
            ))
        } else if ch == 'k' {
            (initial(), Option::Some(
                (Motion { buf: [m.buf[0], count_or_one(m.buf[1]), Cmd::ToDir(Dir::U)] }),
            ))
        } else if ch == 'j' {
            (initial(), Option::Some(
                (Motion { buf: [m.buf[0], count_or_one(m.buf[1]), Cmd::ToDir(Dir::D)] }),
            ))
        } else if ch == 'd' {
            if m.buf[0] == Cmd::Verb(Action::Cut) {
                if m.buf[1] is By {
                    (initial(), Option::Some(
                        (Motion { buf: [Cmd::Verb(Action::Cut), m.buf[1], Cmd::ToDir(Dir::D)] }),
                    ))
                } else {
                    (initial(), Option::Some(
                        (Motion { buf: [Cmd::Verb(Action::Cut), Cmd::ToDest(Dest::Line), m.buf[2]] }),
                    ))
                }
            } else {
                ((Motion { buf: [Cmd::Verb(Action::Cut), m.buf[1], m.buf[2]] }), Option::None)
            }
        } else if ch == '_' {
            (initial(), Option::Some(
                (Motion { buf: [m.buf[0], Cmd::ToDest(Dest::TxtStart), m.buf[2]] }),
            ))
        } else if crate::chars::digit_of(ch) {
            let d = (ch as u32 - 48) as usize;
            if m.buf[1] is By {
                let n = m.buf[1]->By_0;
                ((Motion { buf: [m.buf[0], Cmd::By(sat_count(n, d)), m.buf[2]] }), Option::None)
            } else if ch != '0' {
                ((Motion { buf: [m.buf[0], Cmd::By(d), m.buf[2]] }), Option::None)
            } else {
                (initial(), Option::Some(
                    (Motion { buf: [m.buf[0], Cmd::ToDest(Dest::Endl), m.buf[2]] }),
                ))
            }
        } else {
            (m, Option::None)
        }
    }
}

impl Motion {
    /// A fresh accumulator.
    pub fn new() -> (m: Motion)
        ensures
            m == initial(),
    {
        Motion { buf: [Cmd::Verb(Action::Move), Cmd::Unset, Cmd::Unset] }
    }

    /// A motion from explicit slots.
    pub fn from(buf: [Cmd; 3]) -> (m: Motion)
        ensures
            m.buf == buf,
    {
        Motion { buf }
    }

    /// Whether applying the motion mutates buffer content.
    pub fn is_disruptive(&self) -> (r: bool)
        requires
            self.buf[0] is Verb,
        ensures
            r == (self.buf[0] == Cmd::Verb(Action::Cut)),
    {
        match self.buf[0] {
            Cmd::Verb(Action::Cut) => true,
            Cmd::Verb(Action::Move) => false,
            _ => unreached(),
        }
    }

    /// Fold one keystroke into the accumulator; a completed motion is
    /// emitted and the accumulator reset exactly when the keystroke filled
    /// the last missing slot.
    pub fn push(&mut self, c: Option<char>) -> (r: Option<Motion>)
        requires
            pending(*old(self)),
        ensures
            (*final(self), r) == push_spec(*old(self), c),
            pending(*final(self)),
            r is Some ==> complete(r.unwrap()),
            r is Some ==> *final(self) == initial(),
    {
        if c.is_none() {
            return Option::None;
        }
        let ch = c.unwrap();
        let mut ready = false;

        match ch {
            'x' => {
                let count = if matches!(self.buf[1], Cmd::By(_)) {
                    self.buf[1]
                } else {
                    Cmd::By(1)
                };
                self.buf = [Cmd::Verb(Action::Cut), count, Cmd::ToDir(Dir::R)];
                ready = true;
            },
            'l' | 'h' | 'k' | 'j' => {
                let dir = match ch {
                    'l' => Dir::R,
                    'h' => Dir::L,
                    'k' => Dir::U,
                    _ => Dir::D,
                };
                let count = if matches!(self.buf[1], Cmd::By(_)) {
                    self.buf[1]
                } else {
                    Cmd::By(1)
                };
                self.buf = [self.buf[0], count, Cmd::ToDir(dir)];
                ready = true;
            },
            'd' => {
                if self.buf[0] == Cmd::Verb(Action::Cut) {
                    match self.buf[1] {
                        Cmd::Unset => {
                            self.buf = [Cmd::Verb(Action::Cut), Cmd::ToDest(Dest::Line), self.buf[2]];
                        },
                        Cmd::By(_) => {
                            self.buf = [Cmd::Verb(Action::Cut), self.buf[1], Cmd::ToDir(Dir::D)];
                        },
                        _ => {
                            unreached::<()>();
                        },
                    }
                    ready = true;
                } else {
                    self.buf = [Cmd::Verb(Action::Cut), self.buf[1], self.buf[2]];
                }
            },
            '_' => {
                self.buf = [self.buf[0], Cmd::ToDest(Dest::TxtStart), self.buf[2]];
                ready = true;
            },
            _ => {
                if crate::chars::is_digit(ch) {
                    let d = (ch as u32 - 48) as usize;
                    match self.buf[1] {
                        Cmd::By(n) => {
                            let scaled = match n.checked_mul(10) {
                                Some(t) => t,
                                None => usize::MAX,
                            };
                            self.buf = [
                                self.buf[0],
                                Cmd::By(scaled.saturating_add(d)),
                                self.buf[2],
                            ];
                        },
                        _ => {
                            if ch != '0' {
                                self.buf = [self.buf[0], Cmd::By(d), self.buf[2]];
                            } else {
                                self.buf = [self.buf[0], Cmd::ToDest(Dest::Endl), self.buf[2]];
                                ready = true;
                            }
                        },
                    }
                }
            },
        }

        if ready {
            let command = *self;
            self.reset();
            Option::Some(command)
        } else {
            Option::None
        }
    }

    fn reset(&mut self)
        ensures
            *final(self) == initial(),
    {
        self.buf = [Cmd::Verb(Action::Move), Cmd::Unset, Cmd::Unset];
    }
}

/// Motion bound to the `h` key and the left arrow: move one step left.
pub fn move_l() -> (m: Motion)
    ensures
        m.buf == [Cmd::Verb(Action::Move), Cmd::By(1), Cmd::ToDir(Dir::L)],
{
    Motion { buf: [Cmd::Verb(Action::Move), Cmd::By(1), Cmd::ToDir(Dir::L)] }
}

/// Move one step right.
pub fn move_r() -> (m: Motion)
    ensures
        m.buf == [Cmd::Verb(Action::Move), Cmd::By(1), Cmd::ToDir(Dir::R)],
{
    Motion { buf: [Cmd::Verb(Action::Move), Cmd::By(1), Cmd::ToDir(Dir::R)] }
}

/// Move one row up.
pub fn move_u() -> (m: Motion)
    ensures
        m.buf == [Cmd::Verb(Action::Move), Cmd::By(1), Cmd::ToDir(Dir::U)],
{
    Motion { buf: [Cmd::Verb(Action::Move), Cmd::By(1), Cmd::ToDir(Dir::U)] }
}

/// Move one row down.
pub fn move_d() -> (m: Motion)
    ensures
        m.buf == [Cmd::Verb(Action::Move), Cmd::By(1), Cmd::ToDir(Dir::D)],
{
    Motion { buf: [Cmd::Verb(Action::Move), Cmd::By(1), Cmd::ToDir(Dir::D)] }
}

/// Cut one character to the left: the backspace motion.
pub fn cutback() -> (m: Motion)
    ensures
        m.buf == [Cmd::Verb(Action::Cut), Cmd::By(1), Cmd::ToDir(Dir::L)],
{
    Motion { buf: [Cmd::Verb(Action::Cut), Cmd::By(1), Cmd::ToDir(Dir::L)] }
}

/// Move to the end of the current row.
pub fn move_end() -> (m: Motion)
    ensures
        m.buf == [Cmd::Verb(Action::Move), Cmd::ToDest(Dest::Endl), Cmd::Unset],
{
    Motion { buf: [Cmd::Verb(Action::Move), Cmd::ToDest(Dest::Endl), Cmd::Unset] }
}

} // verus!
