//! The runner: a compiled program and its execution state.
use vstd::prelude::*;
use std::collections::{HashMap, VecDeque};
use crate::compiler::compile;
use crate::error::{MooError, MooErrorKind, MooFault};
use crate::instruction::MooInst;
use crate::machine::{
    cell_at, entry_point, first_live, lemma_first_live_bounds, lemma_matching_close_bounds,
    lemma_next_live_bounds, lemma_step_preserves_wf, matching_close, next_live, predecessor,
    successor, Machine,
};
use crate::text::{count_graphemes, grapheme_count};

verus! {

/// A single Moostar runner.
pub struct Runner {
    /// Stack of iteration and call return pointers, the most recent in front.
    return_positions: VecDeque<usize>,
    /// Pointers
    pointer: usize,
    meta_pointer: usize,
    is_meta: bool,
    /// Ribbons
    data_ribbon: HashMap<usize, u8>,
    meta_ribbon: HashMap<usize, u8>,
    /// Program
    program: Vec<(MooInst, (usize, usize))>,
    instruction_pointer: usize,
    halted: bool,
    /// Input
    input: String,
    /// Output
    output: String,
    /// For each defined subroutine, the index of its `FuncStart`.
    method_index: HashMap<usize, usize>,
}

impl View for Runner {
    type V = Machine;

    closed spec fn view(&self) -> Machine {
        Machine {
            program: self.program@,
            method_index: self.method_index@,
            instruction_pointer: self.instruction_pointer,
            pointer: self.pointer,
            meta_pointer: self.meta_pointer,
            is_meta: self.is_meta,
            data_ribbon: self.data_ribbon@,
            meta_ribbon: self.meta_ribbon@,
            return_positions: self.return_positions@,
            halted: self.halted,
            input: self.input@,
            output: self.output@,
        }
    }
}

/// Index of the instruction at which a program starts.
fn find_entry(program: &Vec<(MooInst, (usize, usize))>) -> (idx: usize)
    requires
        program@.len() > 0,
        !(program@.last().0 is Nop),
    ensures
        idx == entry_point(program@),
        idx < program@.len() <= usize::MAX,
        !(program@[idx as int].0 is Nop),
{
    let mut silencer: bool = false;
    let mut pos: usize = 0;
    proof {
        lemma_first_live_bounds(program@, 0, false);
    }
    while pos < program.len()
        invariant
            pos <= program@.len(),
            entry_point(program@) == first_live(program@, pos as int, silencer),
        decreases program@.len() - pos,
    {
        match program[pos].0 {
            MooInst::FuncStart(_) => {
                silencer = true;
            },
            MooInst::FuncEnd(_) => {
                silencer = false;
            },
            MooInst::Nop(_) => {},
            _ => {
                if !silencer {
                    return pos;
                }
            },
        }
        pos = pos + 1;
    }
    program.len() - 1
}

/// The byte that a ribbon holds at a position, 0 where it holds none.
fn read_cell(ribbon: &HashMap<usize, u8>, position: usize) -> (v: u8)
    ensures
        v == cell_at(ribbon@, position as int),
{
    broadcast use vstd::std_specs::hash::group_hash_axioms;

    match ribbon.get(&position) {
        Some(v) => *v,
        None => 0,
    }
}

impl Runner {
    /// What every runner satisfies; see [`Machine::wf`].
    pub open spec fn wf(&self) -> bool {
        self@.wf()
    }

    /// Compiles `program` and puts a runner at its start.
    pub fn new(program: &str) -> (r: Result<Self, MooError>)
        ensures
            match r {
                Ok(runner) => {
                    &&& compile(program@) matches Ok((instructions, index))
                    &&& runner@ == Machine::initial(instructions, index)
                    &&& runner.wf()
                    &&& runner@.at_live()
                },
                Err(e) => compile(program@) == Err::<
                    (Seq<(MooInst, (usize, usize))>, Map<usize, usize>),
                    MooErrorKind,
                >(e@),
            },
    {
        let (instr, method_index) = match Self::process(program) {
            Ok(compiled) => compiled,
            Err(e) => {
                return Err(e);
            },
        };
        let idx = find_entry(&instr);
        let runner =
            Self {
                return_positions: VecDeque::new(),
                pointer: 0,
                meta_pointer: 0,
                is_meta: false,
                halted: false,
                data_ribbon: HashMap::new(),
                meta_ribbon: HashMap::new(),
                program: instr,
                instruction_pointer: idx,
                input: String::new(),
                output: String::new(),
                method_index,
            };
        assert(runner@.return_positions =~= Seq::<usize>::empty());
        Ok(runner)
    }

    /// Puts the runner back at the start of its program, with empty tapes,
    /// stack and output.
    pub fn reset(&mut self)
        requires
            old(self).wf(),
        ensures
            final(self)@ == Machine::initial(old(self)@.program, old(self)@.method_index),
            final(self).wf(),
            final(self)@.at_live(),
    {
        self.return_positions = VecDeque::new();
        self.pointer = 0;
        self.meta_pointer = 0;
        self.is_meta = false;
        self.halted = false;
        self.data_ribbon = HashMap::new();
        self.meta_ribbon = HashMap::new();
        self.instruction_pointer = find_entry(&self.program);
        self.input = String::new();
        self.output = String::new();
        assert(self@.return_positions =~= Seq::<usize>::empty());
    }

    /// The input buffer.
    pub fn get_input(&self) -> (s: &str)
        ensures
            s@ == self@.input,
    {
        self.input.as_str()
    }

    /// What the program has written so far.
    pub fn get_output(&self) -> (s: &str)
        ensures
            s@ == self@.output,
    {
        self.output.as_str()
    }

    /// Length of the output in extended grapheme clusters.
    pub fn get_output_length(&self) -> (n: usize)
        ensures
            n == grapheme_count(self@.output),
            self@.output.len() == 0 ==> n == 0,
    {
        count_graphemes(self.output.as_str())
    }

    /// Position of the pointer of the active tape.
    pub fn get_data_pointer(&self) -> (p: usize)
        ensures
            p == self@.active_pointer(),
    {
        if self.is_meta {
            self.meta_pointer
        } else {
            self.pointer
        }
    }

    /// The block of `count` cells of the active tape in which the active
    /// pointer lies; blocks start at the multiples of `count`.
    pub fn get_ribbon_around(&self, count: usize) -> (cells: Vec<u8>)
        requires
            count > 0,
        ensures
            cells@ == self@.window(count),
    {
        let position = self.get_data_pointer();
        assert(position % count <= position) by (nonlinear_arith)
            requires
                count > 0,
        ;
        let base = position - position % count;
        let mut cells: Vec<u8> = Vec::new();
        let mut k: usize = 0;
        while k < count
            invariant
                k <= count,
                base == self@.active_pointer() - self@.active_pointer() % count,
                cells@.len() == k,
                forall|j: int|
                    0 <= j < k ==> #[trigger] cells@[j] == cell_at(self@.active_ribbon(), base + j),
            decreases count - k,
        {
            let v = match base.checked_add(k) {
                Some(at) => if self.is_meta {
                    read_cell(&self.meta_ribbon, at)
                } else {
                    read_cell(&self.data_ribbon, at)
                },
                None => 0,
            };
            cells.push(v);
            k = k + 1;
        }
        assert(cells@ =~= self@.window(count));
        cells
    }

    /// The return stack, the most recent entry first; at most `max_of`
    /// entries where a maximum is given.
    pub fn jump_list(&self, max_of: Option<usize>) -> (jumps: Vec<usize>)
        ensures
            jumps@ == self@.jumps(max_of),
    {
        let depth = self.return_positions.len();
        let wanted = match max_of {
            Some(n) => if n < depth {
                n
            } else {
                depth
            },
            None => depth,
        };
        let mut jumps: Vec<usize> = Vec::new();
        let mut k: usize = 0;
        while k < wanted
            invariant
                k <= wanted <= self.return_positions@.len(),
                jumps@ == self.return_positions@.take(k as int),
            decreases wanted - k,
        {
            jumps.push(self.return_positions[k]);
            assert(self.return_positions@.take(k + 1) =~= self.return_positions@.take(
                k as int,
            ).push(self.return_positions@[k as int]));
            k = k + 1;
        }
        assert(self.return_positions@.take(depth as int) =~= self.return_positions@);
        jumps
    }

    /// Obtain the span of the next instruction to be executed: the byte
    /// offset and the byte length of its text in the source.
    pub fn get_instruction_span(&self) -> (span: (usize, usize))
        requires
            self.wf(),
        ensures
            span == self@.program[self@.instruction_pointer as int].1,
    {
        self.next_instruction().1
    }

    fn next_instruction(&self) -> (entry: &(MooInst, (usize, usize)))
        requires
            self.wf(),
        ensures
            *entry == self@.program[self@.instruction_pointer as int],
    {
        &self.program[self.instruction_pointer]
    }

    fn save_pointer(&mut self)
        ensures
            final(self)@ == old(self)@.saved(old(self)@.instruction_pointer),
    {
        self.return_positions.push_front(self.instruction_pointer);
    }

    fn retrieve_pointer(&mut self) -> (position: usize)
        requires
            old(self)@.return_positions.len() > 0,
        ensures
            position == old(self)@.return_positions[0],
            final(self)@ == old(self)@.retrieved(),
    {
        match self.return_positions.pop_front() {
            Some(position) => position,
            None => 0,
        }
    }

    /// Get the underlying [`u8`] value from the ribbon
    pub fn get_value(&self) -> (v: u8)
        ensures
            v == self@.value(),
    {
        if self.is_meta {
            read_cell(&self.meta_ribbon, self.meta_pointer)
        } else {
            read_cell(&self.data_ribbon, self.pointer)
        }
    }

    /// Set value at the current pointer location (data or meta)
    pub fn set_value(&mut self, v: u8)
        ensures
            final(self)@ == old(self)@.with_value(v),
            old(self).wf() ==> final(self).wf(),
    {
        broadcast use vstd::std_specs::hash::group_hash_axioms;

        if self.is_meta {
            self.meta_ribbon.insert(self.meta_pointer, v);
        } else {
            self.data_ribbon.insert(self.pointer, v);
        }
    }

    /// Adds one to the value at the current pointer location, from 255 back to 0.
    pub fn plus(&mut self)
        ensures
            final(self)@ == old(self)@.with_value(successor(old(self)@.value())),
            old(self).wf() ==> final(self).wf(),
    {
        let res = self.get_value().wrapping_add(1);
        self.set_value(res);
    }

    /// Takes one from the value at the current pointer location, from 0 back to 255.
    pub fn minus(&mut self)
        ensures
            final(self)@ == old(self)@.with_value(predecessor(old(self)@.value())),
            old(self).wf() ==> final(self).wf(),
    {
        let res = self.get_value().wrapping_sub(1);
        self.set_value(res);
    }

    /// Whether `Halt` was performed.
    pub fn is_halted(&self) -> (b: bool)
        ensures
            b == self@.halted,
    {
        self.halted
    }

    /// Whether the runner waits for input. A runner that does is not halted,
    /// and its steps change nothing.
    pub fn is_awaiting_input(&self) -> (b: bool)
        requires
            self.wf(),
        ensures
            b == self@.awaiting_input(),
    {
        match self.program[self.instruction_pointer].0 {
            MooInst::In => true,
            _ => false,
        }
    }

    /// Index of the first instruction at or after `from` that is no no-op.
    fn live_from(&self, from: usize) -> (at: usize)
        requires
            self.wf(),
            from < self@.program.len(),
        ensures
            at == next_live(self@.program, from as int),
            from <= at < self@.program.len(),
            !(self@.program[at as int].0 is Nop),
    {
        let mut at: usize = from;
        proof {
            lemma_next_live_bounds(self@.program, from as int);
        }
        while self.program[at].0.is_nop()
            invariant
                self.wf(),
                from <= at < self@.program.len(),
                at <= next_live(self@.program, from as int) < self@.program.len(),
                next_live(self@.program, from as int) == next_live(self@.program, at as int),
            decreases self@.program.len() - at,
        {
            proof {
                lemma_next_live_bounds(self@.program, at + 1);
            }
            at = at + 1;
        }
        at
    }

    /// Index of the `CloseLoop` that matches the `OpenLoop` just before `from`.
    fn find_loop_end(&self, from: usize) -> (close: Option<usize>)
        requires
            1 <= from <= self@.program.len(),
        ensures
            match close {
                Some(at) => matching_close(self@.program, from as int, 1) == Some(at as int),
                None => matching_close(self@.program, from as int, 1) is None,
            },
    {
        let mut at: usize = from;
        let mut varen: usize = 1;
        while at < self.program.len()
            invariant
                1 <= from <= at <= self@.program.len(),
                1 <= varen <= at - from + 1,
                matching_close(self@.program, from as int, 1) == matching_close(
                    self@.program,
                    at as int,
                    varen as nat,
                ),
            decreases self@.program.len() - at,
        {
            match self.program[at].0 {
                MooInst::OpenLoop => {
                    varen = varen + 1;
                },
                MooInst::CloseLoop => {
                    if varen == 1 {
                        return Some(at);
                    }
                    varen = varen - 1;
                },
                _ => {},
            }
            at = at + 1;
        }
        None
    }

    /// Performs one instruction.
    ///
    /// On success the runner has performed exactly the instruction that the
    /// pointer stood on and the pointer rests on the next instruction that is
    /// no no-op. On a fault nothing has changed. A halted runner stays as it is.
    pub fn step(&mut self) -> (r: Result<(), MooFault>)
        requires
            old(self).wf(),
        ensures
            final(self).wf(),
            match r {
                Ok(()) => old(self)@.step() == Ok::<Machine, MooFault>(final(self)@)
                    && final(self)@.at_live(),
                Err(fault) => old(self)@.step() == Err::<Machine, MooFault>(fault) && final(self)@
                    == old(self)@,
            },
            old(self)@.halted ==> r is Ok && final(self)@ == old(self)@,
    {
        broadcast use vstd::std_specs::hash::group_hash_axioms;

        proof {
            lemma_step_preserves_wf(self@);
            lemma_next_live_bounds(self@.program, self@.instruction_pointer as int);
        }
        let ip = self.live_from(self.instruction_pointer);
        let instr = self.program[ip].0;
        match instr {
            MooInst::Halt => {
                self.instruction_pointer = ip;
                self.halted = true;
            },
            MooInst::Plus => {
                self.plus();
                self.instruction_pointer = self.live_from(ip + 1);
            },
            MooInst::Minus => {
                self.minus();
                self.instruction_pointer = self.live_from(ip + 1);
            },
            MooInst::Left => {
                if self.is_meta {
                    if self.meta_pointer == 0 {
                        return Err(MooFault::PointerOutOfRange);
                    }
                    self.meta_pointer = self.meta_pointer - 1;
                } else {
                    if self.pointer == 0 {
                        return Err(MooFault::PointerOutOfRange);
                    }
                    self.pointer = self.pointer - 1;
                }
                self.instruction_pointer = self.live_from(ip + 1);
            },
            MooInst::Right => {
                if self.is_meta {
                    if self.meta_pointer == usize::MAX {
                        return Err(MooFault::PointerOutOfRange);
                    }
                    self.meta_pointer = self.meta_pointer + 1;
                } else {
                    if self.pointer == usize::MAX {
                        return Err(MooFault::PointerOutOfRange);
                    }
                    self.pointer = self.pointer + 1;
                }
                self.instruction_pointer = self.live_from(ip + 1);
            },
            MooInst::OpenLoop => {
                // Evaluate the current value
                let value = self.get_value();
                if value == 0 {
                    // Find the matching close bracket and resume after it
                    proof {
                        lemma_matching_close_bounds(self@.program, ip + 1, 1);
                    }
                    match self.find_loop_end(ip + 1) {
                        Some(close) => {
                            self.instruction_pointer = self.live_from(close + 1);
                        },
                        None => {
                            return Err(MooFault::UnmatchedLoop);
                        },
                    }
                } else {
                    // Remember where the loop starts, then move once
                    self.instruction_pointer = ip;
                    self.save_pointer();
                    self.instruction_pointer = self.live_from(ip + 1);
                }
            },
            MooInst::CloseLoop => {
                if self.return_positions.len() == 0 {
                    return Err(MooFault::ReturnStackUnderflow);
                }
                // Move back to the opening of the loop
                let position = self.retrieve_pointer();
                self.instruction_pointer = self.live_from(position);
            },
            MooInst::Out => {
                // Get the current value under the cursor
                let val = self.get_value();
                self.output.push(val as char);
                self.instruction_pointer = self.live_from(ip + 1);
            },
            MooInst::In => {
                self.instruction_pointer = ip;
            },
            MooInst::Call(n) => {
                // Find the function position
                let position = match self.method_index.get(&n) {
                    Some(position) => *position,
                    None => {
                        return Err(MooFault::UnknownSubroutine(n));
                    },
                };
                // Save the position of the call to come back to
                self.instruction_pointer = ip;
                self.save_pointer();
                // Jump
                self.instruction_pointer = self.live_from(position);
            },
            MooInst::FuncStart(_) => {
                self.instruction_pointer = self.live_from(ip + 1);
            },
            MooInst::FuncEnd(_) => {
                if self.return_positions.len() == 0 {
                    return Err(MooFault::ReturnStackUnderflow);
                }
                // Pop the pointer back and resume after the call
                let position = self.retrieve_pointer();
                self.instruction_pointer = self.live_from(position + 1);
            },
            MooInst::Nop(_) => {
                self.instruction_pointer = self.live_from(ip + 1);
            },
            MooInst::MetaJump => {
                self.is_meta = !self.is_meta;
                self.instruction_pointer = self.live_from(ip + 1);
            },
        }
        Ok(())
    }
}

} // verus!
