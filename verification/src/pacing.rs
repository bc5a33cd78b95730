//! How fast a driver steps a runner.
//!
//! The runner itself knows no time: it offers one step. A driver picks one of
//! the frequencies below and performs, after each wait, the steps that have
//! fallen due. What a key asks of the driver and what a wait makes due is
//! decided here; the driver reads the keys, waits and performs.
use vstd::prelude::*;

verus! {

/// A stepping frequency, in Hertz.
#[derive(Clone, Copy, Debug, PartialEq, Eq, Structural)]
pub enum Frequency {
    /// One step in two seconds.
    Half,
    /// One step a second.
    One,
    /// Two steps a second.
    Two,
    /// Five steps a second.
    Five,
    /// Ten steps a second.
    Ten,
    /// Twenty steps a second.
    Twenty,
    /// Fifty steps a second.
    Fifty,
    /// A hundred steps a second.
    Hundred,
    /// Two hundred steps a second.
    TwoHundred,
    /// Five hundred steps a second.
    FiveHundred,
    /// A thousand steps a second.
    Thousand,
}

impl Frequency {
    /// Place of the frequency among all of them, the slowest first.
    pub open spec fn rank(self) -> nat {
        match self {
            Frequency::Half => 0,
            Frequency::One => 1,
            Frequency::Two => 2,
            Frequency::Five => 3,
            Frequency::Ten => 4,
            Frequency::Twenty => 5,
            Frequency::Fifty => 6,
            Frequency::Hundred => 7,
            Frequency::TwoHundred => 8,
            Frequency::FiveHundred => 9,
            Frequency::Thousand => 10,
        }
    }

    /// The frequency at a place among all of them; the fastest for every place
    /// beyond the last.
    pub open spec fn of_rank(rank: nat) -> Frequency {
        if rank == 0 {
            Frequency::Half
        } else if rank == 1 {
            Frequency::One
        } else if rank == 2 {
            Frequency::Two
        } else if rank == 3 {
            Frequency::Five
        } else if rank == 4 {
            Frequency::Ten
        } else if rank == 5 {
            Frequency::Twenty
        } else if rank == 6 {
            Frequency::Fifty
        } else if rank == 7 {
            Frequency::Hundred
        } else if rank == 8 {
            Frequency::TwoHundred
        } else if rank == 9 {
            Frequency::FiveHundred
        } else {
            Frequency::Thousand
        }
    }

    /// The next slower frequency; the slowest itself where there is none.
    pub open spec fn slower(self) -> Frequency {
        if self.rank() == 0 {
            self
        } else {
            Self::of_rank((self.rank() - 1) as nat)
        }
    }

    /// The next faster frequency; the fastest itself where there is none.
    pub open spec fn faster(self) -> Frequency {
        Self::of_rank(self.rank() + 1)
    }

    /// Steps in two seconds.
    pub open spec fn steps_in_two_seconds(self) -> nat {
        match self {
            Frequency::Half => 1,
            Frequency::One => 2,
            Frequency::Two => 4,
            Frequency::Five => 10,
            Frequency::Ten => 20,
            Frequency::Twenty => 40,
            Frequency::Fifty => 100,
            Frequency::Hundred => 200,
            Frequency::TwoHundred => 400,
            Frequency::FiveHundred => 1000,
            Frequency::Thousand => 2000,
        }
    }

    /// Milliseconds between two steps.
    pub open spec fn millis(self) -> nat {
        2000nat / self.steps_in_two_seconds()
    }

    /// The next slower frequency; the slowest stays.
    pub fn decrease(self) -> (slower: Frequency)
        ensures
            slower == self.slower(),
    {
        match self {
            Frequency::Half | Frequency::One => Frequency::Half,
            Frequency::Two => Frequency::One,
            Frequency::Five => Frequency::Two,
            Frequency::Ten => Frequency::Five,
            Frequency::Twenty => Frequency::Ten,
            Frequency::Fifty => Frequency::Twenty,
            Frequency::Hundred => Frequency::Fifty,
            Frequency::TwoHundred => Frequency::Hundred,
            Frequency::FiveHundred => Frequency::TwoHundred,
            Frequency::Thousand => Frequency::FiveHundred,
        }
    }

    /// The next faster frequency; the fastest stays.
    pub fn increase(self) -> (faster: Frequency)
        ensures
            faster == self.faster(),
    {
        match self {
            Frequency::Half => Frequency::One,
            Frequency::One => Frequency::Two,
            Frequency::Two => Frequency::Five,
            Frequency::Five => Frequency::Ten,
            Frequency::Ten => Frequency::Twenty,
            Frequency::Twenty => Frequency::Fifty,
            Frequency::Fifty => Frequency::Hundred,
            Frequency::Hundred => Frequency::TwoHundred,
            Frequency::TwoHundred => Frequency::FiveHundred,
            Frequency::FiveHundred | Frequency::Thousand => Frequency::Thousand,
        }
    }

    /// Milliseconds to wait between two steps.
    pub fn get_delay(self) -> (millis: u64)
        ensures
            millis == self.millis(),
            millis > 0,
    {
        match self {
            Frequency::Half => 2000,
            Frequency::One => 1000,
            Frequency::Two => 500,
            Frequency::Five => 200,
            Frequency::Ten => 100,
            Frequency::Twenty => 50,
            Frequency::Fifty => 20,
            Frequency::Hundred => 10,
            Frequency::TwoHundred => 5,
            Frequency::FiveHundred => 2,
            Frequency::Thousand => 1,
        }
    }

    /// Place of the frequency in a list of all of them, the slowest first.
    pub fn position(self) -> (at: usize)
        ensures
            at == self.rank(),
    {
        match self {
            Frequency::Half => 0,
            Frequency::One => 1,
            Frequency::Two => 2,
            Frequency::Five => 3,
            Frequency::Ten => 4,
            Frequency::Twenty => 5,
            Frequency::Fifty => 6,
            Frequency::Hundred => 7,
            Frequency::TwoHundred => 8,
            Frequency::FiveHundred => 9,
            Frequency::Thousand => 10,
        }
    }
}

/// A key as the driver reports it.
#[derive(Clone, Copy, Debug, PartialEq, Eq, Structural)]
pub enum Key {
    /// A character key.
    Char(char),
    /// The arrow up.
    Up,
    /// The arrow down.
    Down,
    /// Any other key.
    Other,
}

/// What the driver has to do once a key is taken in.
#[derive(Clone, Copy, Debug, PartialEq, Eq, Structural)]
pub enum Action {
    /// Leave.
    Quit,
    /// Perform one step now.
    Step,
    /// Go on.
    Nothing,
}

/// The frequency that is set, and whether the runner is stepped at it.
#[derive(Clone, Copy, Debug, PartialEq, Eq, Structural)]
pub struct Pace {
    /// The frequency that is set.
    pub frequency: Frequency,
    /// Whether steps fall due as time passes.
    pub running: bool,
}

impl Pace {
    /// What a key makes of the pace, and what it asks of the driver: `q`
    /// quits, the arrows up and down lower and raise the frequency, the space
    /// bar starts and pauses, `s` pauses and asks for one step.
    pub open spec fn after_key(self, key: Key) -> (Pace, Action) {
        match key {
            Key::Char('q') => (self, Action::Quit),
            Key::Up => (Pace { frequency: self.frequency.slower(), ..self }, Action::Nothing),
            Key::Down => (Pace { frequency: self.frequency.faster(), ..self }, Action::Nothing),
            Key::Char(' ') => (Pace { running: !self.running, ..self }, Action::Nothing),
            Key::Char('s') => (Pace { running: false, ..self }, Action::Step),
            _ => (self, Action::Nothing),
        }
    }

    /// What a wait of `elapsed` milliseconds since the last tick makes due:
    /// nothing before the delay of the frequency is over; after it, the steps
    /// that fit into the wait, none of them while paused, and the
    /// milliseconds already spent on the next tick.
    pub open spec fn due_after(self, elapsed: u128) -> Option<(u128, u128)> {
        let delay = self.frequency.millis();
        if elapsed < delay {
            None
        } else if self.running {
            Some(((elapsed as nat / delay) as u128, (elapsed as nat % delay) as u128))
        } else {
            Some((0, (elapsed as nat % delay) as u128))
        }
    }

    /// The pace at which a driver starts: one step a second, paused.
    pub fn new() -> (pace: Pace)
        ensures
            pace == (Pace { frequency: Frequency::One, running: false }),
    {
        Pace { frequency: Frequency::One, running: false }
    }

    /// Takes a key in.
    pub fn on_key(self, key: Key) -> (r: (Pace, Action))
        ensures
            r == self.after_key(key),
    {
        match key {
            Key::Char('q') => (self, Action::Quit),
            Key::Up => (
                Pace { frequency: self.frequency.decrease(), running: self.running },
                Action::Nothing,
            ),
            Key::Down => (
                Pace { frequency: self.frequency.increase(), running: self.running },
                Action::Nothing,
            ),
            Key::Char(' ') => (
                Pace { frequency: self.frequency, running: !self.running },
                Action::Nothing,
            ),
            Key::Char('s') => (Pace { frequency: self.frequency, running: false }, Action::Step),
            _ => (self, Action::Nothing),
        }
    }

    /// The steps to perform after a wait of `elapsed` milliseconds since the
    /// last tick, and how long ago the tick that is counted from now fell.
    pub fn on_tick(self, elapsed: u128) -> (due: Option<(u128, u128)>)
        ensures
            due == self.due_after(elapsed),
    {
        let delay = self.frequency.get_delay() as u128;
        if elapsed < delay {
            return None;
        }
        let (ticks, rest) = ticks_due(elapsed, delay);
        if self.running {
            Some((ticks, rest))
        } else {
            Some((0, rest))
        }
    }
}

/// The steps that have fallen due `elapsed` milliseconds after the last one
/// at `delay` milliseconds a step, and the milliseconds already spent on the
/// step that comes next.
pub fn ticks_due(elapsed: u128, delay: u128) -> (due: (u128, u128))
    requires
        delay > 0,
    ensures
        due.0 == elapsed / delay,
        due.1 == elapsed % delay,
{
    (elapsed / delay, elapsed % delay)
}

/// The rank tells the frequencies apart, and each of the eleven ranks has
/// its frequency.
pub proof fn law_rank_is_one_to_one(a: Frequency, b: Frequency)
    ensures
        a.rank() == b.rank() ==> a == b,
        a.rank() <= 10,
        Frequency::of_rank(a.rank()) == a,
{
}

/// Slower is one rank down and faster one rank up, as far as there is one.
pub proof fn law_one_rank_at_a_time(f: Frequency)
    ensures
        f.slower().rank() == (if f.rank() == 0 {
            0
        } else {
            f.rank() - 1
        }),
        f.faster().rank() == (if f.rank() == 10 {
            10
        } else {
            f.rank() + 1
        }),
        f.rank() < 10 ==> f.faster().slower() == f,
        f.rank() > 0 ==> f.slower().faster() == f,
{
}

/// A faster frequency waits less between two steps.
pub proof fn law_faster_waits_less(a: Frequency, b: Frequency)
    requires
        a.rank() < b.rank(),
    ensures
        a.millis() > b.millis(),
{
}

} // verus!
