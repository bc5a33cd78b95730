//! What holds of the compiler and of the machine for every program.
use vstd::prelude::*;
use vstd::utf8::encode_utf8;
use crate::compiler::{
    compile, covers, ids_inv, lemma_compile_well_formed, lemma_length_fits, lemma_scan_keeps_ids,
    lemma_scan_keeps_inv, lemma_scan_keeps_nesting, lemma_scan_keeps_spans, literal_origin,
    placed, scan, scan_step, span_of, Scan,
};
use crate::error::{MooErrorKind, MooFault};
use crate::instruction::{is_reserved, MooInst};
use crate::machine::{
    entry_point, first_live, lemma_first_live_bounds, lemma_first_live_is_first,
    lemma_next_live_bounds, lemma_step_preserves_wf, next_live, suppressed_at, Machine,
};
use crate::text::{
    byte_offset, lemma_byte_offset_bound, lemma_byte_offset_monotonic, lemma_encoding_of_range,
};

verus! {

/// A halted machine stays exactly as it is, however often it is stepped.
pub proof fn law_halted_is_final(m: Machine, steps: nat)
    requires
        m.wf(),
        m.halted,
    ensures
        m.step() == Ok::<Machine, MooFault>(m),
        m.run(steps) == Ok::<Machine, MooFault>(m),
    decreases steps,
{
    lemma_next_live_bounds(m.program, m.instruction_pointer as int);
    if steps > 0 {
        law_halted_is_final(m, (steps - 1) as nat);
    }
}

/// Once halted, always halted: no step takes the flag back.
pub proof fn law_halted_is_one_way(m: Machine)
    requires
        m.wf(),
    ensures
        m.step() matches Ok(after) ==> (m.halted ==> after.halted),
{
    if m.halted {
        law_halted_is_final(m, 0);
    }
}

/// A machine that waits for input is not halted, and stays exactly as it
/// is, however often it is stepped.
pub proof fn law_awaiting_input_is_inert(m: Machine, steps: nat)
    requires
        m.wf(),
        m.awaiting_input(),
    ensures
        !m.halted,
        m.step() == Ok::<Machine, MooFault>(m),
        m.run(steps) == Ok::<Machine, MooFault>(m),
    decreases steps,
{
    lemma_next_live_bounds(m.program, m.instruction_pointer as int);
    if steps > 0 {
        law_awaiting_input_is_inert(m, (steps - 1) as nat);
    }
}

/// A run that meets a fault ends there: where the first step fails, every
/// run fails with the fault of that step.
pub proof fn law_fault_repeats(m: Machine, steps: nat)
    requires
        m.step() is Err,
        steps > 0,
    ensures
        m.run(steps) == Err::<Machine, MooFault>(m.step()->Err_0),
{
}

/// Every run of a well-formed machine stays well formed.
pub proof fn law_run_preserves_wf(m: Machine, steps: nat)
    requires
        m.wf(),
    ensures
        m.run(steps) matches Ok(after) ==> after.wf() && after.program == m.program
            && after.method_index == m.method_index,
    decreases steps,
{
    if steps > 0 {
        lemma_step_preserves_wf(m);
        if let Ok(next) = m.step() {
            law_run_preserves_wf(next, (steps - 1) as nat);
        }
    }
}

/// Stepping in two batches is stepping in one: how the steps are spread over
/// time does not show in the state.
pub proof fn law_run_composes(m: Machine, first: nat, second: nat)
    ensures
        m.run(first + second) == (match m.run(first) {
            Ok(between) => between.run(second),
            Err(fault) => Err(fault),
        }),
    decreases first,
{
    if first > 0 {
        if let Ok(next) = m.step() {
            law_run_composes(next, (first - 1) as nat, second);
            assert(m.run(first + second) == next.run((first + second - 1) as nat));
        }
    }
}

/// The return stack follows the nesting: it grows by one where a loop is
/// entered or a subroutine called, shrinks by one where a loop or a body
/// ends, and keeps its depth everywhere else.
pub proof fn law_return_stack_follows_nesting(m: Machine)
    requires
        m.wf(),
        m.at_live(),
        m.step() is Ok,
    ensures
        ({
            let after = m.step()->Ok_0;
            let before = m.return_positions.len();
            match m.program[m.instruction_pointer as int].0 {
                MooInst::OpenLoop => after.return_positions.len() == (if m.value() == 0 {
                    before
                } else {
                    before + 1
                }),
                MooInst::Call(_) => after.return_positions.len() == before + 1,
                MooInst::CloseLoop => after.return_positions.len() == before - 1,
                MooInst::FuncEnd(_) => after.return_positions.len() == before - 1,
                _ => after.return_positions == m.return_positions,
            }
        }),
{
}

/// The output only grows: what was written stays, at the front of what is
/// written later.
pub proof fn law_output_is_append_only(m: Machine, steps: nat)
    requires
        m.run(steps) is Ok,
    ensures
        m.output.len() <= m.run(steps)->Ok_0.output.len(),
        m.run(steps)->Ok_0.output.take(m.output.len() as int) == m.output,
    decreases steps,
{
    if steps > 0 {
        let next = m.step()->Ok_0;
        law_output_is_append_only(next, (steps - 1) as nat);
        let end = next.run((steps - 1) as nat)->Ok_0;
        assert(next.output.len() >= m.output.len());
        assert(next.output.take(m.output.len() as int) =~= m.output);
        assert(end.output.take(m.output.len() as int) =~= end.output.take(
            next.output.len() as int,
        ).take(m.output.len() as int));
    } else {
        assert(m.output.take(m.output.len() as int) =~= m.output);
    }
}

/// The two tapes share no cell: a step leaves the tape that is not active,
/// and its pointer, as they were.
pub proof fn law_tapes_are_independent(m: Machine)
    requires
        m.step() is Ok,
    ensures
        ({
            let after = m.step()->Ok_0;
            if m.is_meta {
                after.data_ribbon == m.data_ribbon && after.pointer == m.pointer
            } else {
                after.meta_ribbon == m.meta_ribbon && after.meta_pointer == m.meta_pointer
            }
        }),
{
}

/// A no-op under the instruction pointer contributes nothing: the step from
/// it is the step from the instruction after it.
pub proof fn law_no_op_changes_nothing(m: Machine)
    requires
        m.wf(),
        m.program[m.instruction_pointer as int].0 is Nop,
    ensures
        m.instruction_pointer + 1 < m.program.len(),
        m.step() == (Machine {
            instruction_pointer: (m.instruction_pointer + 1) as usize,
            ..m
        }).step(),
{
    let moved = Machine { instruction_pointer: (m.instruction_pointer + 1) as usize, ..m };
    assert(next_live(m.program, m.instruction_pointer as int) == next_live(
        moved.program,
        moved.instruction_pointer as int,
    ));
    let ip = next_live(m.program, m.instruction_pointer as int);
    assert(m.goto(ip) == moved.goto(ip));
    assert(m.goto(ip + 1) == moved.goto(ip + 1));
}

/// A compiled program gives a well-formed machine that starts on an
/// instruction which is no no-op. This holds of every source whose program,
/// one `Halt` longer than the source at most, can still be indexed.
pub proof fn law_compiled_program_starts_well(src: Seq<char>)
    requires
        encode_utf8(src).len() < usize::MAX,
        compile(src) is Ok,
    ensures
        ({
            let (program, index) = compile(src)->Ok_0;
            let m = Machine::initial(program, index);
            m.wf() && m.at_live()
        }),
{
    lemma_compile_well_formed(src);
    lemma_length_fits(src);
    lemma_scan_keeps_inv(src, 0, Scan::start());
    let (program, index) = compile(src)->Ok_0;
    lemma_first_live_bounds(program, 0, false);
}

/// Execution does not begin inside a subroutine body: the entry point of a
/// compiled program lies outside every definition, neither opens nor closes
/// one and is no no-op, and nothing before it is of that kind.
pub proof fn law_entry_is_outside_definitions(src: Seq<char>)
    requires
        encode_utf8(src).len() <= usize::MAX,
        compile(src) is Ok,
    ensures
        ({
            let program = compile(src)->Ok_0.0;
            let entry = entry_point(program);
            &&& 0 <= entry < program.len()
            &&& !suppressed_at(program, entry)
            &&& !(program[entry].0 is Nop)
            &&& !(program[entry].0 is FuncStart)
            &&& !(program[entry].0 is FuncEnd)
            &&& forall|k: int|
                0 <= k < entry ==> (#[trigger] program[k]).0 is Nop || program[k].0 is FuncStart
                    || program[k].0 is FuncEnd || suppressed_at(program, k)
        }),
{
    lemma_length_fits(src);
    lemma_scan_keeps_inv(src, 0, Scan::start());
    lemma_scan_keeps_nesting(src, 0, Scan::start());
    let program = compile(src)->Ok_0.0;
    lemma_first_live_is_first(program, 0, program.len() - 1);
}

/// Spans follow the source. The span of every instruction but the final
/// `Halt` is the span of one character of the source or of several in a row,
/// so that it cuts the encoding of those characters out of the encoding of
/// the source; no span starts before the one before it has ended; and the
/// span of `Halt` is the one byte that would follow the source.
pub proof fn law_spans_follow_the_source(src: Seq<char>, k: int)
    requires
        encode_utf8(src).len() <= usize::MAX,
        compile(src) is Ok,
        0 <= k < compile(src)->Ok_0.0.len(),
    ensures
        ({
            let program = compile(src)->Ok_0.0;
            let (offset, length) = program[k].1;
            if k == program.len() - 1 {
                offset == encode_utf8(src).len() && length == 1
            } else {
                &&& exists|from: int, to: int|
                    #[trigger] covers(src, program[k].1, from, to) && encode_utf8(src).subrange(
                        offset as int,
                        offset + length,
                    ) == encode_utf8(src.subrange(from, to))
                &&& 0 < length
                &&& offset + length <= program[k + 1].1.0 <= encode_utf8(src).len()
            }
        }),
{
    lemma_scan_keeps_spans(src, 0, Scan::start());
    let end = scan(src, 0, Scan::start())->Ok_0;
    let program = end.program;
    let body = program.drop_last();
    if k < program.len() - 1 {
        assert(body[k] == program[k]);
        assert(placed(src, body[k].1, src.len() as int));
        let (from, to) = choose|from: int, to: int|
            to <= src.len() && #[trigger] covers(src, body[k].1, from, to);
        lemma_encoding_of_range(src, from, to);
        lemma_byte_offset_monotonic(src, from, to);
        assert(covers(src, program[k].1, from, to));
        if k < program.len() - 2 {
            assert(body[k + 1] == program[k + 1]);
            assert(body[k].1.0 + body[k].1.1 <= body[k + 1].1.0);
            assert(placed(src, body[k + 1].1, src.len() as int));
            let (a, b) = choose|a: int, b: int|
                b <= src.len() && #[trigger] covers(src, body[k + 1].1, a, b);
            lemma_byte_offset_bound(src, a);
        } else {
            assert(body.last() == body[k]);
            lemma_byte_offset_bound(src, src.len() as int);
        }
    }
}

/// Subroutine ids are dense and there is one for each name: when a source
/// has been read, no name stands twice among the names, whose indices are the
/// ids; the program and the table name no other id; and the program names
/// every one of them.
pub proof fn law_ids_are_dense(src: Seq<char>)
    requires
        encode_utf8(src).len() <= usize::MAX,
        scan(src, 0, Scan::start()) is Ok,
    ensures
        ids_inv(scan(src, 0, Scan::start())->Ok_0),
        compile(src)->Ok_0 == (
            scan(src, 0, Scan::start())->Ok_0.program,
            scan(src, 0, Scan::start())->Ok_0.index,
        ),
{
    lemma_length_fits(src);
    lemma_scan_keeps_ids(src, 0, Scan::start());
}

/// A character that the language does not reserve, met outside a header and
/// a call, compiles to a no-op that carries it, with the span of that one
/// character, and changes nothing else of what the compiler has gathered.
pub proof fn law_literal_compiles_to_no_op(src: Seq<char>, i: int, st: Scan)
    requires
        0 <= i < src.len(),
        !is_reserved(src[i]),
    ensures
        scan_step(src, i, st) == Ok::<(Scan, int), MooErrorKind>(
            (st.emit(MooInst::Nop(src[i]), span_of(src, i, i + 1)), i + 1),
        ),
{
}

/// A no-op of a compiled program carries a character that the language does
/// not reserve, and its span cuts exactly the encoding of that character out
/// of the encoding of the source.
pub proof fn law_literal_span(src: Seq<char>, k: int)
    requires
        encode_utf8(src).len() <= usize::MAX,
        compile(src) is Ok,
        0 <= k < compile(src)->Ok_0.0.len(),
        compile(src)->Ok_0.0[k].0 is Nop,
    ensures
        ({
            let entry = compile(src)->Ok_0.0[k];
            let c = entry.0->Nop_0;
            let (offset, length) = entry.1;
            &&& !is_reserved(c)
            &&& offset + length <= encode_utf8(src).len()
            &&& encode_utf8(src).subrange(offset as int, offset + length) == encode_utf8(seq![c])
        }),
{
    lemma_length_fits(src);
    lemma_scan_keeps_inv(src, 0, Scan::start());
    let end = scan(src, 0, Scan::start())->Ok_0;
    let body = end.program.drop_last();
    assert(end.program[k] == body[k]);
    let j = choose|j: int| literal_origin(src, j, body[k]);
    lemma_encoding_of_range(src, j, j + 1);
    lemma_byte_offset_bound(src, j + 1);
    assert(src.subrange(j, j + 1) =~= seq![src[j]]);
}

/// Whether no character of the text is reserved by the language.
pub open spec fn all_literal(src: Seq<char>) -> bool {
    forall|i: int| 0 <= i < src.len() ==> !is_reserved(#[trigger] src[i])
}

/// Reading a stretch of literals adds one no-op for each and then `Halt`.
proof fn lemma_scan_literals(src: Seq<char>, i: int, st: Scan)
    requires
        0 <= i <= src.len(),
        all_literal(src),
        st.open is None,
    ensures
        scan(src, i, st) matches Ok(end) && {
            &&& end.index == st.index
            &&& end.program.len() == st.program.len() + (src.len() - i) + 1
            &&& forall|k: int| 0 <= k < st.program.len() ==> end.program[k] == st.program[k]
            &&& forall|j: int|
                i <= j < src.len() ==> #[trigger] end.program[st.program.len() + j - i] == (
                    MooInst::Nop(src[j]),
                    span_of(src, j, j + 1),
                )
            &&& end.program.last() == (MooInst::Halt, (byte_offset(src, src.len() as int) as usize, 1usize))
        },
    decreases src.len() - i,
{
    if i < src.len() {
        law_literal_compiles_to_no_op(src, i, st);
        let after = st.emit(MooInst::Nop(src[i]), span_of(src, i, i + 1));
        lemma_scan_literals(src, i + 1, after);
        let end = scan(src, i, st)->Ok_0;
        assert(end.program[st.program.len() + i - i] == after.program[st.program.len() as int]);
        assert forall|j: int| i <= j < src.len() implies #[trigger] end.program[st.program.len() + j
            - i] == (MooInst::Nop(src[j]), span_of(src, j, j + 1)) by {
            if j > i {
                assert(end.program[after.program.len() + j - (i + 1)] == (
                    MooInst::Nop(src[j]),
                    span_of(src, j, j + 1),
                ));
            }
        }
    }
}

/// Where only no-ops lie from `from` to the last instruction, the first live
/// instruction and the next live one are the last.
proof fn lemma_only_no_ops(program: Seq<(MooInst, (usize, usize))>, from: int)
    requires
        0 <= from < program.len(),
        forall|k: int| from <= k < program.len() - 1 ==> #[trigger] program[k].0 is Nop,
        program.last().0 is Halt,
    ensures
        first_live(program, from, false) == program.len() - 1,
        next_live(program, from) == program.len() - 1,
    decreases program.len() - from,
{
    if from < program.len() - 1 {
        lemma_only_no_ops(program, from + 1);
    }
}

/// A text without reserved characters compiles to one no-op for each of its
/// characters, followed by `Halt`, and defines no subroutine. Its machine
/// starts on the `Halt`, and the one step it can make sets nothing but the
/// halted flag: the tapes, the pointers, the stack and the output stay as
/// they were.
pub proof fn law_literals_do_nothing(src: Seq<char>)
    requires
        encode_utf8(src).len() <= usize::MAX,
        all_literal(src),
    ensures
        compile(src) is Ok,
        ({
            let (program, index) = compile(src)->Ok_0;
            let start = Machine::initial(program, index);
            &&& program.len() == src.len() + 1
            &&& index == Map::<usize, usize>::empty()
            &&& forall|i: int|
                0 <= i < src.len() ==> #[trigger] program[i] == (
                    MooInst::Nop(src[i]),
                    span_of(src, i, i + 1),
                )
            &&& program[src.len() as int].0 is Halt
            &&& start.instruction_pointer == src.len()
            &&& start.step() == Ok::<Machine, MooFault>(Machine { halted: true, ..start })
        }),
{
    lemma_length_fits(src);
    lemma_scan_literals(src, 0, Scan::start());
    let (program, index) = compile(src)->Ok_0;
    assert forall|i: int| 0 <= i < src.len() implies #[trigger] program[i] == (
        MooInst::Nop(src[i]),
        span_of(src, i, i + 1),
    ) by {
        assert(program[0 + i - 0] == (MooInst::Nop(src[i]), span_of(src, i, i + 1)));
    }
    lemma_only_no_ops(program, 0);
    assert(entry_point(program) == src.len());
    let start = Machine::initial(program, index);
    lemma_next_live_bounds(program, src.len() as int);
}

} // verus!
