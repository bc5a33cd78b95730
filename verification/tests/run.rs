use moostar::{MooFault, Runner};

fn runner(source: &str) -> Runner {
    match Runner::new(source) {
        Ok(runner) => runner,
        Err(e) => panic!("{} is rejected: {}", source, e.message()),
    }
}

fn steps(runner: &mut Runner, count: usize) {
    for _ in 0..count {
        assert_eq!(runner.step(), Ok(()));
    }
}

fn run_to_halt(runner: &mut Runner, limit: usize) -> usize {
    let mut done = 0;
    while !runner.is_halted() {
        assert!(done < limit, "no halt within {} steps", limit);
        assert_eq!(runner.step(), Ok(()));
        done += 1;
    }
    done
}

/// Everything that can be observed of a runner.
fn snapshot(runner: &Runner) -> (bool, (usize, usize), usize, u8, Vec<u8>, Vec<usize>, String, String, usize) {
    (
        runner.is_halted(),
        runner.get_instruction_span(),
        runner.get_data_pointer(),
        runner.get_value(),
        runner.get_ribbon_around(16),
        runner.jump_list(None),
        runner.get_output().to_string(),
        runner.get_input().to_string(),
        runner.get_output_length(),
    )
}

#[test]
fn one_plus_sets_the_first_data_cell() {
    let mut r = runner("+");
    assert_eq!(r.get_value(), 0);
    assert_eq!(r.get_instruction_span(), (0, 1));
    assert_eq!(r.step(), Ok(()));
    assert_eq!(r.get_value(), 1);
    assert_eq!(r.get_data_pointer(), 0);
    assert_eq!(r.get_ribbon_around(4), vec![1, 0, 0, 0]);
    assert!(!r.is_halted());
    // The data tape is still the active one: a toggle finds the meta cell at 0.
    let mut t = runner("+^");
    steps(&mut t, 2);
    assert_eq!(t.get_value(), 0);
}

#[test]
fn three_pluses_then_halt() {
    let mut r = runner("+++");
    steps(&mut r, 3);
    assert_eq!(r.get_value(), 3);
    assert!(!r.is_halted());
    assert_eq!(r.step(), Ok(()));
    assert!(r.is_halted());
    assert_eq!(r.get_value(), 3);
}

#[test]
fn a_loop_runs_until_its_cell_is_zero() {
    let mut r = runner("+[-]");
    assert_eq!(r.step(), Ok(()));
    assert_eq!(r.get_value(), 1);
    assert_eq!(r.get_instruction_span(), (1, 1));
    // `[` on a cell that is not zero puts its own index on the stack
    assert_eq!(r.step(), Ok(()));
    assert_eq!(r.jump_list(None), vec![1]);
    assert_eq!(r.get_instruction_span(), (2, 1));
    assert_eq!(r.step(), Ok(()));
    assert_eq!(r.get_value(), 0);
    assert_eq!(r.get_instruction_span(), (3, 1));
    // `]` goes back to the `[`
    assert_eq!(r.step(), Ok(()));
    assert_eq!(r.jump_list(None), Vec::<usize>::new());
    assert_eq!(r.get_instruction_span(), (1, 1));
    // which finds its cell at zero and goes past the `]`, onto `Halt`
    assert_eq!(r.step(), Ok(()));
    assert_eq!(r.get_instruction_span(), (4, 1));
    assert!(!r.is_halted());
    assert_eq!(r.step(), Ok(()));
    assert!(r.is_halted());
    assert_eq!(r.get_value(), 0);
    assert_eq!(r.jump_list(None), Vec::<usize>::new());
}

#[test]
fn a_skipped_loop_is_skipped_to_its_own_end() {
    let mut r = runner("[+[+]+]-");
    assert_eq!(r.step(), Ok(()));
    assert_eq!(r.get_instruction_span(), (7, 1));
    assert_eq!(r.get_value(), 0);
    assert_eq!(r.step(), Ok(()));
    assert_eq!(r.get_value(), 255);
}

#[test]
fn toggle_switches_between_the_tapes() {
    let mut r = runner("^+^");
    assert_eq!(r.step(), Ok(()));
    assert_eq!(r.get_value(), 0);
    assert_eq!(r.step(), Ok(()));
    // the meta cell is 1 now
    assert_eq!(r.get_value(), 1);
    assert_eq!(r.get_ribbon_around(2), vec![1, 0]);
    assert_eq!(r.step(), Ok(()));
    // back on the data tape, whose cell is still 0
    assert_eq!(r.get_value(), 0);
    assert_eq!(r.get_ribbon_around(2), vec![0, 0]);
}

#[test]
fn the_tapes_have_pointers_of_their_own() {
    let mut r = runner(">>+^>-^");
    steps(&mut r, 3);
    assert_eq!(r.get_data_pointer(), 2);
    assert_eq!(r.get_value(), 1);
    steps(&mut r, 1);
    assert_eq!(r.get_data_pointer(), 0);
    steps(&mut r, 2);
    assert_eq!(r.get_data_pointer(), 1);
    assert_eq!(r.get_value(), 255);
    steps(&mut r, 1);
    assert_eq!(r.get_data_pointer(), 2);
    assert_eq!(r.get_value(), 1);
}

#[test]
fn a_subroutine_is_skipped_at_the_start_and_entered_by_calls() {
    let mut r = runner("(double):{++}~double;~double;");
    // starts at the first call, not in the body
    assert_eq!(r.get_instruction_span(), (13, 8));
    // the call puts its own index on the stack and goes to the definition
    assert_eq!(r.step(), Ok(()));
    assert_eq!(r.jump_list(None), vec![4]);
    assert_eq!(r.get_instruction_span(), (0, 10));
    steps(&mut r, 3);
    assert_eq!(r.get_value(), 2);
    assert_eq!(r.get_instruction_span(), (12, 1));
    // the end of the body goes back to just after the call
    assert_eq!(r.step(), Ok(()));
    assert_eq!(r.jump_list(None), Vec::<usize>::new());
    assert_eq!(r.get_instruction_span(), (21, 8));
    assert_eq!(r.step(), Ok(()));
    assert_eq!(r.jump_list(None), vec![5]);
    steps(&mut r, 4);
    assert_eq!(r.get_instruction_span(), (29, 1));
    assert_eq!(r.get_value(), 4);
    assert!(!r.is_halted());
    assert_eq!(r.step(), Ok(()));
    assert!(r.is_halted());
    assert_eq!(r.get_value(), 4);
}

#[test]
fn a_call_may_come_before_the_definition() {
    let mut r = runner("~inc;(inc):{+}");
    assert_eq!(r.get_instruction_span(), (0, 5));
    assert_eq!(r.step(), Ok(()));
    assert_eq!(r.jump_list(None), vec![0]);
    assert_eq!(r.get_instruction_span(), (5, 7));
    steps(&mut r, 3);
    assert_eq!(r.get_value(), 1);
    assert_eq!(r.jump_list(None), Vec::<usize>::new());
}

#[test]
fn a_body_that_follows_its_call_is_run_into() {
    // Only the start of a run passes over definitions: after the return the
    // body is entered once more, and its end finds the stack empty.
    let mut r = runner("~inc;(inc):{+}");
    steps(&mut r, 4);
    assert_eq!(r.get_instruction_span(), (5, 7));
    steps(&mut r, 2);
    assert_eq!(r.get_value(), 2);
    assert_eq!(r.step(), Err(MooFault::ReturnStackUnderflow));
}

#[test]
fn instructions_before_a_definition_are_live() {
    let mut r = runner("+(f):{-}+");
    assert_eq!(r.get_instruction_span(), (0, 1));
}

#[test]
fn literals_at_the_start_are_passed_over() {
    let r = runner("add one: +");
    assert_eq!(r.get_instruction_span(), (9, 1));
    let only = runner("nothing to do");
    assert_eq!(only.get_instruction_span(), (13, 1));
}

#[test]
fn literals_between_instructions_are_passed_over() {
    let mut r = runner("+ two - steps");
    assert_eq!(r.step(), Ok(()));
    assert_eq!(r.get_instruction_span(), (6, 1));
    assert_eq!(r.step(), Ok(()));
    assert_eq!(r.get_instruction_span(), (13, 1));
    assert_eq!(r.get_value(), 0);
    assert_eq!(r.get_output(), "");
    assert_eq!(r.get_data_pointer(), 0);
}

#[test]
fn literals_change_nothing_of_a_run() {
    let mut plain = runner("++[>+<-]>.");
    let mut wordy = runner("+ + loop[ right> + <left - ] >print.");
    let n = run_to_halt(&mut plain, 1000);
    let m = run_to_halt(&mut wordy, 1000);
    assert_eq!(n, m);
    assert_eq!(plain.get_output(), wordy.get_output());
    assert_eq!(plain.get_ribbon_around(8), wordy.get_ribbon_around(8));
    assert_eq!(plain.get_data_pointer(), wordy.get_data_pointer());
    assert_eq!(plain.jump_list(None), wordy.jump_list(None));
}

#[test]
fn stepping_a_halted_runner_changes_nothing() {
    let mut r = runner("++>+++[<+>-]<.^+>-");
    run_to_halt(&mut r, 1000);
    let halted = snapshot(&r);
    assert!(halted.0);
    for _ in 0..50 {
        assert_eq!(r.step(), Ok(()));
        assert_eq!(snapshot(&r), halted);
    }
}

#[test]
fn cells_wrap_around() {
    let mut r = runner("-+");
    assert_eq!(r.step(), Ok(()));
    assert_eq!(r.get_value(), 255);
    assert_eq!(r.step(), Ok(()));
    assert_eq!(r.get_value(), 0);
}

#[test]
fn plus_and_minus_wrap_by_hand_too() {
    let mut r = runner("");
    r.minus();
    assert_eq!(r.get_value(), 255);
    r.plus();
    assert_eq!(r.get_value(), 0);
    r.set_value(254);
    r.plus();
    assert_eq!(r.get_value(), 255);
    r.plus();
    assert_eq!(r.get_value(), 0);
    r.set_value(1);
    r.minus();
    r.minus();
    assert_eq!(r.get_value(), 255);
}

#[test]
fn output_takes_the_cell_as_one_character() {
    let source = format!("{}.{}.", "+".repeat(65), "+".repeat(168));
    let mut r = runner(&source);
    run_to_halt(&mut r, 1000);
    assert_eq!(r.get_output(), "A\u{e9}");
    assert_eq!(r.get_output_length(), 2);
}

#[test]
fn output_length_counts_grapheme_clusters() {
    let source = format!("{}.---.", "+".repeat(13));
    let mut r = runner(&source);
    run_to_halt(&mut r, 1000);
    assert_eq!(r.get_output(), "\r\n");
    assert_eq!(r.get_output().chars().count(), 2);
    assert_eq!(r.get_output_length(), 1);
}

#[test]
fn output_starts_empty() {
    let r = runner("+.");
    assert_eq!(r.get_output(), "");
    assert_eq!(r.get_output_length(), 0);
    assert_eq!(r.get_input(), "");
}

#[test]
fn read_input_is_inert() {
    let mut r = runner("+,+");
    assert!(!r.is_awaiting_input());
    assert_eq!(r.step(), Ok(()));
    assert!(r.is_awaiting_input());
    let before = snapshot(&r);
    assert_eq!(before.1, (1, 1));
    for _ in 0..5 {
        assert_eq!(r.step(), Ok(()));
        assert_eq!(snapshot(&r), before);
    }
    assert!(!r.is_halted());
}

#[test]
fn close_loop_on_an_empty_stack_is_a_fault() {
    let mut r = runner("+]");
    assert_eq!(r.step(), Ok(()));
    let before = snapshot(&r);
    assert_eq!(r.step(), Err(MooFault::ReturnStackUnderflow));
    assert_eq!(snapshot(&r), before);
    assert_eq!(r.step(), Err(MooFault::ReturnStackUnderflow));
    assert!(!r.is_halted());
}

#[test]
fn end_of_a_body_on_an_empty_stack_is_a_fault() {
    let mut r = runner("+[(f):{}]");
    // `+`, `[`, the header, `}` which takes the loop's entry, the header again
    steps(&mut r, 4);
    assert_eq!(r.jump_list(None), Vec::<usize>::new());
    assert_eq!(r.get_instruction_span(), (2, 5));
    steps(&mut r, 1);
    assert_eq!(r.step(), Err(MooFault::ReturnStackUnderflow));
}

#[test]
fn call_of_what_is_never_defined_is_a_fault() {
    let mut r = runner("~a;~ghost;(a):{}");
    steps(&mut r, 3);
    let before = snapshot(&r);
    assert_eq!(r.step(), Err(MooFault::UnknownSubroutine(1)));
    assert_eq!(snapshot(&r), before);
}

#[test]
fn skipping_a_loop_that_never_ends_is_a_fault() {
    let mut r = runner("[+[-]");
    let before = snapshot(&r);
    assert_eq!(r.step(), Err(MooFault::UnmatchedLoop));
    assert_eq!(snapshot(&r), before);
}

#[test]
fn moving_left_of_the_first_cell_is_a_fault() {
    let mut r = runner("><<");
    steps(&mut r, 2);
    assert_eq!(r.get_data_pointer(), 0);
    let before = snapshot(&r);
    assert_eq!(r.step(), Err(MooFault::PointerOutOfRange));
    assert_eq!(snapshot(&r), before);
    let mut meta = runner("^<");
    steps(&mut meta, 1);
    assert_eq!(meta.step(), Err(MooFault::PointerOutOfRange));
}

#[test]
fn reset_goes_back_to_the_start() {
    let mut r = runner("(f):{+.}>~f;^+[");
    let fresh = snapshot(&r);
    assert_eq!(fresh.1, (8, 1));
    steps(&mut r, 8);
    assert_ne!(snapshot(&r), fresh);
    r.reset();
    assert_eq!(snapshot(&r), fresh);
    // and the same steps give the same states again
    let mut again = runner("(f):{+.}>~f;^+[");
    for _ in 0..8 {
        assert_eq!(r.step(), again.step());
        assert_eq!(snapshot(&r), snapshot(&again));
    }
}

#[test]
fn reset_revives_a_halted_runner() {
    let mut r = runner("+");
    run_to_halt(&mut r, 10);
    r.reset();
    assert!(!r.is_halted());
    assert_eq!(r.get_value(), 0);
    assert_eq!(r.get_instruction_span(), (0, 1));
}

#[test]
fn jump_list_is_most_recent_first_and_can_be_capped() {
    let mut r = runner("+[[[");
    steps(&mut r, 4);
    assert_eq!(r.jump_list(None), vec![3, 2, 1]);
    assert_eq!(r.jump_list(Some(2)), vec![3, 2]);
    assert_eq!(r.jump_list(Some(0)), Vec::<usize>::new());
    assert_eq!(r.jump_list(Some(3)), vec![3, 2, 1]);
    assert_eq!(r.jump_list(Some(10)), vec![3, 2, 1]);
}

#[test]
fn ribbon_window_is_the_block_around_the_pointer() {
    let mut r = runner(">>>>>+>++<");
    steps(&mut r, 10);
    assert_eq!(r.get_data_pointer(), 5);
    assert_eq!(r.get_ribbon_around(4), vec![0, 1, 2, 0]);
    assert_eq!(r.get_ribbon_around(5), vec![1, 2, 0, 0, 0]);
    assert_eq!(r.get_ribbon_around(1), vec![1]);
    assert_eq!(r.get_ribbon_around(8), vec![0, 0, 0, 0, 0, 1, 2, 0]);
}

#[test]
fn ribbon_window_follows_the_active_tape() {
    let mut r = runner("+^>>++");
    steps(&mut r, 6);
    assert_eq!(r.get_data_pointer(), 2);
    assert_eq!(r.get_ribbon_around(2), vec![2, 0]);
    assert_eq!(r.get_ribbon_around(4), vec![0, 0, 2, 0]);
}

#[test]
fn two_runners_do_not_share_state() {
    let mut a = runner("+++");
    let mut b = runner("+++");
    steps(&mut a, 2);
    assert_eq!(b.get_value(), 0);
    steps(&mut b, 1);
    assert_eq!(a.get_value(), 2);
    assert_eq!(b.get_value(), 1);
}
