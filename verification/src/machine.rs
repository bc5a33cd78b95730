//! The mathematical model of a runner, and what one step does to it.
//!
//! A [`Machine`] holds what a runner holds, as sequences and maps. The
//! functions here say what the initial state of a program is and what one
//! step makes of a state; the executable runner is proved against them.
use vstd::prelude::*;
use crate::error::MooFault;
use crate::instruction::MooInst;

verus! {

/// Index of the first instruction at or after `from` that is no no-op.
pub open spec fn next_live(program: Seq<(MooInst, (usize, usize))>, from: int) -> int
    decreases program.len() - from,
{
    if 0 <= from < program.len() && program[from].0 is Nop {
        next_live(program, from + 1)
    } else {
        from
    }
}

/// Index of the `CloseLoop` that closes the loop which is `depth` levels deep
/// at index `from`, if the program holds one.
pub open spec fn matching_close(
    program: Seq<(MooInst, (usize, usize))>,
    from: int,
    depth: nat,
) -> Option<int>
    decreases program.len() - from,
{
    if from < 0 || from >= program.len() {
        None
    } else if program[from].0 is OpenLoop {
        matching_close(program, from + 1, depth + 1)
    } else if program[from].0 is CloseLoop {
        if depth <= 1 {
            Some(from)
        } else {
            matching_close(program, from + 1, (depth - 1) as nat)
        }
    } else {
        matching_close(program, from + 1, depth)
    }
}

/// Index of the first instruction at or after `from` that is no no-op and
/// lies outside every subroutine definition, where `suppressed` says whether
/// `from` lies inside one. Where there is none, the index of the last
/// instruction.
pub open spec fn first_live(
    program: Seq<(MooInst, (usize, usize))>,
    from: int,
    suppressed: bool,
) -> int
    decreases program.len() - from,
{
    if from < 0 || from >= program.len() {
        program.len() - 1
    } else if program[from].0 is FuncStart {
        first_live(program, from + 1, true)
    } else if program[from].0 is FuncEnd {
        first_live(program, from + 1, false)
    } else if program[from].0 is Nop || suppressed {
        first_live(program, from + 1, suppressed)
    } else {
        from
    }
}

/// Whether index `at` lies inside a subroutine definition: behind a
/// `FuncStart` that no `FuncEnd` has followed yet.
pub open spec fn suppressed_at(program: Seq<(MooInst, (usize, usize))>, at: int) -> bool
    decreases at,
{
    if at <= 0 || at > program.len() {
        false
    } else if program[at - 1].0 is FuncStart {
        true
    } else if program[at - 1].0 is FuncEnd {
        false
    } else {
        suppressed_at(program, at - 1)
    }
}

/// Where execution starts: at the first instruction that is no no-op and
/// stands in no subroutine body.
pub open spec fn entry_point(program: Seq<(MooInst, (usize, usize))>) -> int {
    first_live(program, 0, false)
}

/// The byte at a position of a tape; positions that were never written hold 0.
pub open spec fn cell_at(tape: Map<usize, u8>, position: int) -> u8 {
    if 0 <= position <= usize::MAX && tape.contains_key(position as usize) {
        tape[position as usize]
    } else {
        0
    }
}

/// One more, from 255 back to 0.
pub open spec fn successor(v: u8) -> u8 {
    if v == 255 {
        0
    } else {
        (v + 1) as u8
    }
}

/// One less, from 0 back to 255.
pub open spec fn predecessor(v: u8) -> u8 {
    if v == 0 {
        255
    } else {
        (v - 1) as u8
    }
}

/// The state of a runner.
pub struct Machine {
    /// The compiled program: instructions with their spans.
    pub program: Seq<(MooInst, (usize, usize))>,
    /// For each defined subroutine, the index of its `FuncStart`.
    pub method_index: Map<usize, usize>,
    /// Index of the instruction that the next step performs.
    pub instruction_pointer: usize,
    /// Position on the data tape.
    pub pointer: usize,
    /// Position on the meta tape.
    pub meta_pointer: usize,
    /// Whether the meta tape is the active one.
    pub is_meta: bool,
    /// The cells of the data tape that were written.
    pub data_ribbon: Map<usize, u8>,
    /// The cells of the meta tape that were written.
    pub meta_ribbon: Map<usize, u8>,
    /// Where loops and calls go back to, the most recent first.
    pub return_positions: Seq<usize>,
    /// Whether `Halt` was performed.
    pub halted: bool,
    /// The input buffer.
    pub input: Seq<char>,
    /// What was written so far.
    pub output: Seq<char>,
}

impl Machine {
    /// The state in which a program starts, and to which a reset goes back.
    pub open spec fn initial(
        program: Seq<(MooInst, (usize, usize))>,
        method_index: Map<usize, usize>,
    ) -> Machine {
        Machine {
            program,
            method_index,
            instruction_pointer: entry_point(program) as usize,
            pointer: 0,
            meta_pointer: 0,
            is_meta: false,
            data_ribbon: Map::empty(),
            meta_ribbon: Map::empty(),
            return_positions: Seq::empty(),
            halted: false,
            input: Seq::empty(),
            output: Seq::empty(),
        }
    }

    /// What every state of a runner satisfies: the program ends with `Halt`
    /// and its indices fit the machine word, the instruction pointer and
    /// every jump target lie within the program, and a halted machine stands
    /// on a `Halt`.
    pub open spec fn wf(self) -> bool {
        &&& 0 < self.program.len() <= usize::MAX
        &&& self.program.last().0 is Halt
        &&& self.instruction_pointer < self.program.len()
        &&& forall|k: int|
            0 <= k < self.return_positions.len() ==> #[trigger] self.return_positions[k] + 1
                < self.program.len()
        &&& forall|id: usize|
            self.method_index.contains_key(id) ==> #[trigger] self.method_index[id]
                < self.program.len()
        &&& self.halted ==> self.program[self.instruction_pointer as int].0 is Halt
    }

    /// Whether the instruction pointer stands on an instruction that is no no-op.
    pub open spec fn at_live(self) -> bool {
        !(self.program[self.instruction_pointer as int].0 is Nop)
    }

    /// Whether the machine waits for input: it stands on `In`, which no step
    /// gets past as long as no input is wired.
    pub open spec fn awaiting_input(self) -> bool {
        self.program[self.instruction_pointer as int].0 is In
    }

    /// The pointer of the active tape.
    pub open spec fn active_pointer(self) -> usize {
        if self.is_meta {
            self.meta_pointer
        } else {
            self.pointer
        }
    }

    /// The written cells of the active tape.
    pub open spec fn active_ribbon(self) -> Map<usize, u8> {
        if self.is_meta {
            self.meta_ribbon
        } else {
            self.data_ribbon
        }
    }

    /// The byte under the active pointer.
    pub open spec fn value(self) -> u8 {
        cell_at(self.active_ribbon(), self.active_pointer() as int)
    }

    /// The state with `v` written under the active pointer.
    pub open spec fn with_value(self, v: u8) -> Machine {
        if self.is_meta {
            Machine { meta_ribbon: self.meta_ribbon.insert(self.meta_pointer, v), ..self }
        } else {
            Machine { data_ribbon: self.data_ribbon.insert(self.pointer, v), ..self }
        }
    }

    /// The state with the active pointer at `position`.
    pub open spec fn with_pointer(self, position: usize) -> Machine {
        if self.is_meta {
            Machine { meta_pointer: position, ..self }
        } else {
            Machine { pointer: position, ..self }
        }
    }

    /// The state with `position` on top of the return stack.
    pub open spec fn saved(self, position: usize) -> Machine {
        Machine { return_positions: seq![position] + self.return_positions, ..self }
    }

    /// The state without the top of the return stack.
    pub open spec fn retrieved(self) -> Machine {
        Machine {
            return_positions: self.return_positions.subrange(
                1,
                self.return_positions.len() as int,
            ),
            ..self
        }
    }

    /// The state with the instruction pointer at the first instruction at or
    /// after `target` that is no no-op.
    pub open spec fn goto(self, target: int) -> Machine {
        Machine { instruction_pointer: next_live(self.program, target) as usize, ..self }
    }

    /// What one step makes of this state, or the fault that stops it.
    ///
    /// No-ops under the instruction pointer are passed over first. Then the
    /// instruction under it is performed, and the pointer comes to rest on
    /// the next instruction that is no no-op.
    pub open spec fn step(self) -> Result<Machine, MooFault> {
        let ip = next_live(self.program, self.instruction_pointer as int);
        match self.program[ip].0 {
            MooInst::Halt => Ok(Machine { halted: true, ..self.goto(ip) }),
            MooInst::Plus => Ok(self.with_value(successor(self.value())).goto(ip + 1)),
            MooInst::Minus => Ok(self.with_value(predecessor(self.value())).goto(ip + 1)),
            MooInst::Left => if self.active_pointer() == 0 {
                Err(MooFault::PointerOutOfRange)
            } else {
                Ok(self.with_pointer((self.active_pointer() - 1) as usize).goto(ip + 1))
            },
            MooInst::Right => if self.active_pointer() == usize::MAX {
                Err(MooFault::PointerOutOfRange)
            } else {
                Ok(self.with_pointer((self.active_pointer() + 1) as usize).goto(ip + 1))
            },
            MooInst::OpenLoop => if self.value() == 0 {
                match matching_close(self.program, ip + 1, 1) {
                    Some(close) => Ok(self.goto(close + 1)),
                    None => Err(MooFault::UnmatchedLoop),
                }
            } else {
                Ok(self.saved(ip as usize).goto(ip + 1))
            },
            MooInst::CloseLoop => if self.return_positions.len() == 0 {
                Err(MooFault::ReturnStackUnderflow)
            } else {
                Ok(self.retrieved().goto(self.return_positions[0] as int))
            },
            MooInst::Out => Ok(
                Machine { output: self.output.push(self.value() as char), ..self.goto(ip + 1) },
            ),
            MooInst::In => Ok(self.goto(ip)),
            MooInst::Call(id) => if self.method_index.contains_key(id) {
                Ok(self.saved(ip as usize).goto(self.method_index[id] as int))
            } else {
                Err(MooFault::UnknownSubroutine(id))
            },
            MooInst::FuncStart(_) => Ok(self.goto(ip + 1)),
            MooInst::FuncEnd(_) => if self.return_positions.len() == 0 {
                Err(MooFault::ReturnStackUnderflow)
            } else {
                Ok(self.retrieved().goto(self.return_positions[0] + 1))
            },
            MooInst::Nop(_) => Ok(self.goto(ip + 1)),
            MooInst::MetaJump => Ok(Machine { is_meta: !self.is_meta, ..self.goto(ip + 1) }),
        }
    }

    /// What `steps` steps in a row make of this state, or the first fault.
    pub open spec fn run(self, steps: nat) -> Result<Machine, MooFault>
        decreases steps,
    {
        if steps == 0 {
            Ok(self)
        } else {
            match self.step() {
                Ok(next) => next.run((steps - 1) as nat),
                Err(fault) => Err(fault),
            }
        }
    }

    /// The return stack, the most recent entry first, cut to `max_of` entries
    /// where a maximum is given.
    pub open spec fn jumps(self, max_of: Option<usize>) -> Seq<usize> {
        match max_of {
            Some(n) if n < self.return_positions.len() => self.return_positions.take(n as int),
            _ => self.return_positions,
        }
    }

    /// The `count` cells of the active tape that form the block in which the
    /// active pointer lies, where blocks start at the multiples of `count`.
    pub open spec fn window(self, count: usize) -> Seq<u8> {
        let base = self.active_pointer() - self.active_pointer() % count;
        Seq::new(count as nat, |k: int| cell_at(self.active_ribbon(), base + k))
    }
}

/// Passing over no-ops ends within the program, on an instruction that is no
/// no-op, provided the program does not end with one.
pub proof fn lemma_next_live_bounds(program: Seq<(MooInst, (usize, usize))>, from: int)
    requires
        0 <= from < program.len(),
        !(program.last().0 is Nop),
    ensures
        from <= next_live(program, from) < program.len(),
        !(program[next_live(program, from)].0 is Nop),
        forall|k: int| from <= k < next_live(program, from) ==> #[trigger] program[k].0 is Nop,
        next_live(program, next_live(program, from)) == next_live(program, from),
    decreases program.len() - from,
{
    if program[from].0 is Nop {
        lemma_next_live_bounds(program, from + 1);
    }
}

/// A matching `CloseLoop` that is found lies within the program, at or after
/// the index from which it was sought.
pub proof fn lemma_matching_close_bounds(
    program: Seq<(MooInst, (usize, usize))>,
    from: int,
    depth: nat,
)
    requires
        0 <= from,
    ensures
        matching_close(program, from, depth) matches Some(close) ==> from <= close < program.len()
            && program[close].0 is CloseLoop,
    decreases program.len() - from,
{
    if from < program.len() {
        if program[from].0 is OpenLoop {
            lemma_matching_close_bounds(program, from + 1, depth + 1);
        } else if program[from].0 is CloseLoop {
            if depth > 1 {
                lemma_matching_close_bounds(program, from + 1, (depth - 1) as nat);
            }
        } else {
            lemma_matching_close_bounds(program, from + 1, depth);
        }
    }
}

/// The entry point lies within the program and is no no-op, provided the
/// program does not end with one.
pub proof fn lemma_first_live_bounds(
    program: Seq<(MooInst, (usize, usize))>,
    from: int,
    suppressed: bool,
)
    requires
        0 <= from <= program.len(),
        program.len() > 0,
        !(program.last().0 is Nop),
    ensures
        0 <= first_live(program, from, suppressed) < program.len(),
        !(program[first_live(program, from, suppressed)].0 is Nop),
    decreases program.len() - from,
{
    if from < program.len() {
        if program[from].0 is FuncStart {
            lemma_first_live_bounds(program, from + 1, true);
        } else if program[from].0 is FuncEnd {
            lemma_first_live_bounds(program, from + 1, false);
        } else if program[from].0 is Nop || suppressed {
            lemma_first_live_bounds(program, from + 1, suppressed);
        }
    }
}

/// What precedes the first live instruction is not live: each instruction
/// from `from` up to it is a no-op, opens or closes a definition, or lies
/// inside one. And unless all that follows `from` is of that kind, the first
/// live instruction itself lies outside every definition and neither opens
/// nor closes one.
pub proof fn lemma_first_live_is_first(
    program: Seq<(MooInst, (usize, usize))>,
    from: int,
    at: int,
)
    requires
        0 <= from <= at < program.len(),
        !suppressed_at(program, at),
        !(program[at].0 is Nop),
        !(program[at].0 is FuncStart),
        !(program[at].0 is FuncEnd),
    ensures
        ({
            let first = first_live(program, from, suppressed_at(program, from));
            &&& from <= first <= at
            &&& !suppressed_at(program, first)
            &&& !(program[first].0 is Nop)
            &&& !(program[first].0 is FuncStart)
            &&& !(program[first].0 is FuncEnd)
            &&& forall|k: int|
                from <= k < first ==> (#[trigger] program[k]).0 is Nop || program[k].0 is FuncStart
                    || program[k].0 is FuncEnd || suppressed_at(program, k)
        }),
    decreases at - from,
{
    let inside = suppressed_at(program, from);
    let live = !(program[from].0 is Nop) && !(program[from].0 is FuncStart) && !(
    program[from].0 is FuncEnd) && !inside;
    if !live {
        assert(from < at);
        lemma_first_live_is_first(program, from + 1, at);
        let first = first_live(program, from + 1, suppressed_at(program, from + 1));
        assert forall|k: int| from <= k < first implies (#[trigger] program[k]).0 is Nop
            || program[k].0 is FuncStart || program[k].0 is FuncEnd || suppressed_at(
            program,
            k,
        ) by {}
    }
}

/// A step keeps a state well formed, and leaves the instruction pointer on an
/// instruction that is no no-op.
pub proof fn lemma_step_preserves_wf(m: Machine)
    requires
        m.wf(),
    ensures
        m.step() matches Ok(after) ==> after.wf() && after.at_live() && after.program == m.program
            && after.method_index == m.method_index,
{
    let ip = next_live(m.program, m.instruction_pointer as int);
    lemma_next_live_bounds(m.program, m.instruction_pointer as int);
    if ip + 1 < m.program.len() {
        lemma_next_live_bounds(m.program, ip + 1);
    }
    match m.program[ip].0 {
        MooInst::OpenLoop => {
            lemma_matching_close_bounds(m.program, ip + 1, 1);
            if let Some(close) = matching_close(m.program, ip + 1, 1) {
                lemma_next_live_bounds(m.program, close + 1);
            }
        },
        MooInst::CloseLoop => {
            if m.return_positions.len() > 0 {
                lemma_next_live_bounds(m.program, m.return_positions[0] as int);
            }
        },
        MooInst::FuncEnd(_) => {
            if m.return_positions.len() > 0 {
                lemma_next_live_bounds(m.program, m.return_positions[0] + 1);
            }
        },
        MooInst::Call(id) => {
            if m.method_index.contains_key(id) {
                lemma_next_live_bounds(m.program, m.method_index[id] as int);
            }
        },
        _ => {},
    }
}

} // verus!
