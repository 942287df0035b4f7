use bf_interpreter::error::Error;
use bf_interpreter::execute::{execute, run, Progress};
use bf_interpreter::machine::{Machine, Signal};
use bf_interpreter::operator::Operator;
use bf_interpreter::translate::interpret;

const PLENTY: u64 = 1_000_000;

const HELLO_WORLD: &str = "++++++++[>++++[>++>+++>+++>+<<<<-]>+>+>->>+[<]<-]>>.>---.+++++++..+++.>>.<-.<.+++.------.--------.>>+.>++.";

fn translate(text: &str) -> Vec<Operator> {
    interpret(String::from(text)).unwrap()
}

fn halted(consumed: usize) -> Result<Progress, Error> {
    Ok(Progress { consumed, halted: true })
}

fn paused(consumed: usize) -> Result<Progress, Error> {
    Ok(Progress { consumed, halted: false })
}

#[test]
fn incrementing_256_times_wraps_to_zero() {
    let program = translate(&"+".repeat(256));
    let mut tape = vec![0u8; 4];
    let mut pointer = 0usize;
    let mut output = Vec::new();
    let result = execute(&mut tape, &mut pointer, &program, &[], &mut output, PLENTY);
    assert_eq!(result, halted(0));
    assert_eq!(tape, vec![0, 0, 0, 0]);
    assert_eq!(pointer, 0);
    assert!(output.is_empty());
}

#[test]
fn incrementing_255_times_reaches_255() {
    let program = translate(&"+".repeat(255));
    let mut tape = vec![0u8; 2];
    let mut pointer = 1usize;
    let mut output = Vec::new();
    let result = execute(&mut tape, &mut pointer, &program, &[], &mut output, PLENTY);
    assert_eq!(result, halted(0));
    assert_eq!(tape, vec![0, 255]);
}

#[test]
fn incrementing_wraps_from_any_value() {
    let program = translate(&"+".repeat(256));
    let mut tape = vec![7u8, 200, 255];
    let mut pointer = 1usize;
    let mut output = Vec::new();
    let result = execute(&mut tape, &mut pointer, &program, &[], &mut output, PLENTY);
    assert_eq!(result, halted(0));
    assert_eq!(tape, vec![7, 200, 255]);
}

#[test]
fn decrementing_zero_wraps_to_255() {
    let program = translate("-");
    let mut tape = vec![0u8];
    let mut pointer = 0usize;
    let mut output = Vec::new();
    let result = execute(&mut tape, &mut pointer, &program, &[], &mut output, PLENTY);
    assert_eq!(result, halted(0));
    assert_eq!(tape, vec![255]);
}

#[test]
fn incrementing_255_wraps_to_zero() {
    let program = translate("+");
    let mut tape = vec![255u8];
    let mut pointer = 0usize;
    let mut output = Vec::new();
    let result = execute(&mut tape, &mut pointer, &program, &[], &mut output, PLENTY);
    assert_eq!(result, halted(0));
    assert_eq!(tape, vec![0]);
}

#[test]
fn clear_loop_on_zero_does_nothing() {
    let program = translate("[-]");
    let mut tape = vec![0u8, 9];
    let mut pointer = 0usize;
    let mut output = Vec::new();
    let result = execute(&mut tape, &mut pointer, &program, &[], &mut output, 1);
    assert_eq!(result, halted(0));
    assert_eq!(tape, vec![0, 9]);
    assert_eq!(pointer, 0);
    assert!(output.is_empty());
}

#[test]
fn clear_loop_counts_down_to_zero() {
    let program = translate("[-]");
    let mut tape = vec![3u8, 5u8, 8u8];
    let mut pointer = 1usize;
    let mut output = Vec::new();
    let result = execute(&mut tape, &mut pointer, &program, &[], &mut output, PLENTY);
    assert_eq!(result, halted(0));
    assert_eq!(tape, vec![3, 0, 8]);
    assert_eq!(pointer, 1);
    assert!(output.is_empty());
}

#[test]
fn clear_loop_takes_two_transitions_for_each_unit_and_one_more() {
    let program = translate("[-]");
    for n in [1u8, 2, 5, 255] {
        let needed = 2 * (n as u64) + 1;

        let mut tape = vec![n];
        let mut pointer = 0usize;
        let mut output = Vec::new();
        let result = execute(&mut tape, &mut pointer, &program, &[], &mut output, needed);
        assert_eq!(result, halted(0));
        assert_eq!(tape, vec![0]);

        let mut tape = vec![n];
        let mut pointer = 0usize;
        let result = execute(&mut tape, &mut pointer, &program, &[], &mut output, needed - 1);
        assert_eq!(result, paused(0));
        assert_eq!(tape, vec![0]);

        let mut tape = vec![n];
        let mut pointer = 0usize;
        let result = execute(&mut tape, &mut pointer, &program, &[], &mut output, needed - 2);
        assert_eq!(result, paused(0));
        assert_eq!(tape, vec![1]);
    }
}

#[test]
fn a_loop_on_zero_is_never_entered() {
    let program = translate("[.+]");
    let mut tape = vec![0u8];
    let mut pointer = 0usize;
    let mut output = Vec::new();
    let result = execute(&mut tape, &mut pointer, &program, &[], &mut output, PLENTY);
    assert_eq!(result, halted(0));
    assert_eq!(tape, vec![0]);
    assert!(output.is_empty());
}

#[test]
fn a_loop_is_left_when_its_cell_becomes_zero() {
    let program = translate("+++[.-]");
    let mut tape = vec![0u8];
    let mut pointer = 0usize;
    let mut output = Vec::new();
    let result = execute(&mut tape, &mut pointer, &program, &[], &mut output, PLENTY);
    assert_eq!(result, halted(0));
    assert_eq!(output, vec![3, 2, 1]);
    assert_eq!(tape, vec![0]);
}

#[test]
fn the_loop_test_looks_at_the_current_cell() {
    let program = translate("+[>]");
    let mut tape = vec![0u8, 1, 1, 0, 1];
    let mut pointer = 0usize;
    let mut output = Vec::new();
    let result = execute(&mut tape, &mut pointer, &program, &[], &mut output, PLENTY);
    assert_eq!(result, halted(0));
    assert_eq!(pointer, 3);
    assert_eq!(tape, vec![1, 1, 1, 0, 1]);
}

#[test]
fn hello_world_writes_hello_world() {
    let mut output = Vec::new();
    let result = run(String::from(HELLO_WORLD), 1024, &[], &mut output, PLENTY);
    assert_eq!(result, halted(0));
    assert_eq!(output, b"Hello World!\n".to_vec());
}

#[test]
fn hello_world_leaves_its_input_alone() {
    let mut output = Vec::new();
    let result = run(String::from(HELLO_WORLD), 1024, b"unread", &mut output, PLENTY);
    assert_eq!(result, halted(0));
    assert_eq!(output, b"Hello World!\n".to_vec());
}

#[test]
fn hello_world_appends_to_what_was_written() {
    let mut output = b">> ".to_vec();
    let result = run(String::from(HELLO_WORLD), 1024, &[], &mut output, PLENTY);
    assert_eq!(result, halted(0));
    assert_eq!(output, b">> Hello World!\n".to_vec());
}

#[test]
fn echo_reads_one_byte_and_writes_it() {
    let mut output = Vec::new();
    let result = run(String::from(",."), 1, &[0x41], &mut output, PLENTY);
    assert_eq!(result, halted(1));
    assert_eq!(output, vec![0x41]);
}

#[test]
fn echo_reads_only_the_first_byte() {
    let mut output = Vec::new();
    let result = run(String::from(",."), 1, &[0x41, 0x42, 0x43], &mut output, PLENTY);
    assert_eq!(result, halted(1));
    assert_eq!(output, vec![0x41]);
}

#[test]
fn input_is_read_in_order() {
    let mut output = Vec::new();
    let result = run(String::from(",>,>,.<.<."), 3, b"abc", &mut output, PLENTY);
    assert_eq!(result, halted(3));
    assert_eq!(output, b"cba".to_vec());
}

#[test]
fn copy_until_zero_byte() {
    let mut output = Vec::new();
    let result = run(String::from(",[.,]"), 1, b"tape\0rest", &mut output, PLENTY);
    assert_eq!(result, halted(5));
    assert_eq!(output, b"tape".to_vec());
}

#[test]
fn output_is_a_raw_byte() {
    let program = translate(".");
    let mut tape = vec![200u8];
    let mut pointer = 0usize;
    let mut output = Vec::new();
    let result = execute(&mut tape, &mut pointer, &program, &[], &mut output, PLENTY);
    assert_eq!(result, halted(0));
    assert_eq!(output, vec![200]);
}

#[test]
fn input_stores_a_raw_byte() {
    let program = translate(",");
    let mut tape = vec![1u8];
    let mut pointer = 0usize;
    let mut output = Vec::new();
    let result = execute(&mut tape, &mut pointer, &program, &[0xff], &mut output, PLENTY);
    assert_eq!(result, halted(1));
    assert_eq!(tape, vec![0xff]);
}

#[test]
fn shuttle_moves_one_unit_to_the_next_cell() {
    let program = translate(">+<-");
    for v in [1u8, 2, 100, 255] {
        let mut tape = vec![v, 0, 77];
        let mut pointer = 0usize;
        let mut output = Vec::new();
        let result = execute(&mut tape, &mut pointer, &program, &[], &mut output, PLENTY);
        assert_eq!(result, halted(0));
        assert_eq!(tape, vec![v - 1, 1, 77]);
        assert_eq!(pointer, 0);
        assert!(output.is_empty());
    }
}

#[test]
fn shuttle_from_zero_wraps_the_first_cell() {
    let program = translate(">+<-");
    let mut tape = vec![0u8, 0];
    let mut pointer = 0usize;
    let mut output = Vec::new();
    let result = execute(&mut tape, &mut pointer, &program, &[], &mut output, 4);
    assert_eq!(result, halted(0));
    assert_eq!(tape, vec![255, 1]);
    assert_eq!(pointer, 0);
}

#[test]
fn nested_loops_multiply() {
    let mut output = Vec::new();
    let result = run(String::from("+++[>++++[>+++++<-]<-]>>."), 3, &[], &mut output, PLENTY);
    assert_eq!(result, halted(0));
    assert_eq!(output, vec![60]);
}

#[test]
fn moving_left_of_the_first_cell_fails() {
    let program = translate("<");
    let mut tape = vec![1u8, 2, 3];
    let mut pointer = 0usize;
    let mut output = Vec::new();
    let result = execute(&mut tape, &mut pointer, &program, &[], &mut output, PLENTY);
    assert_eq!(result, Err(Error::TapeBoundsExceeded));
    assert_eq!(tape, vec![1, 2, 3]);
    assert_eq!(pointer, 0);
}

#[test]
fn moving_right_of_the_last_cell_fails() {
    let program = translate(">");
    let mut tape = vec![1u8, 2, 3];
    let mut pointer = 2usize;
    let mut output = Vec::new();
    let result = execute(&mut tape, &mut pointer, &program, &[], &mut output, PLENTY);
    assert_eq!(result, Err(Error::TapeBoundsExceeded));
    assert_eq!(tape, vec![1, 2, 3]);
    assert_eq!(pointer, 2);
}

#[test]
fn the_last_cell_can_be_reached_and_used() {
    let program = translate(">>+.");
    let mut tape = vec![0u8, 0, 41];
    let mut pointer = 0usize;
    let mut output = Vec::new();
    let result = execute(&mut tape, &mut pointer, &program, &[], &mut output, PLENTY);
    assert_eq!(result, halted(0));
    assert_eq!(pointer, 2);
    assert_eq!(output, vec![42]);
}

#[test]
fn the_first_cell_can_be_reached_and_used() {
    let program = translate("<<-.");
    let mut tape = vec![43u8, 0, 0];
    let mut pointer = 2usize;
    let mut output = Vec::new();
    let result = execute(&mut tape, &mut pointer, &program, &[], &mut output, PLENTY);
    assert_eq!(result, halted(0));
    assert_eq!(pointer, 0);
    assert_eq!(output, vec![42]);
}

#[test]
fn a_failure_keeps_what_was_done_before_it() {
    let program = translate("+.>+.>+.");
    let mut tape = vec![0u8, 0];
    let mut pointer = 0usize;
    let mut output = Vec::new();
    let result = execute(&mut tape, &mut pointer, &program, &[], &mut output, PLENTY);
    assert_eq!(result, Err(Error::TapeBoundsExceeded));
    assert_eq!(tape, vec![1, 1]);
    assert_eq!(pointer, 1);
    assert_eq!(output, vec![1, 1]);
}

#[test]
fn a_one_cell_tape_cannot_be_left() {
    let mut output = Vec::new();
    assert_eq!(
        run(String::from("+.>"), 1, &[], &mut output, PLENTY),
        Err(Error::TapeBoundsExceeded)
    );
    assert_eq!(output, vec![1]);
    let mut output = Vec::new();
    assert_eq!(
        run(String::from("+.<"), 1, &[], &mut output, PLENTY),
        Err(Error::TapeBoundsExceeded)
    );
    assert_eq!(output, vec![1]);
}

#[test]
fn a_pointer_outside_the_tape_fails_at_once() {
    let program = translate("+.");
    let mut tape = vec![0u8, 0];
    let mut pointer = 2usize;
    let mut output = vec![9u8];
    let result = execute(&mut tape, &mut pointer, &program, &[], &mut output, PLENTY);
    assert_eq!(result, Err(Error::TapeBoundsExceeded));
    assert_eq!(tape, vec![0, 0]);
    assert_eq!(pointer, 2);
    assert_eq!(output, vec![9]);
}

#[test]
fn an_empty_tape_has_no_cell_to_point_at() {
    let program = translate("");
    let mut tape: Vec<u8> = Vec::new();
    let mut pointer = 0usize;
    let mut output = Vec::new();
    let result = execute(&mut tape, &mut pointer, &program, &[], &mut output, PLENTY);
    assert_eq!(result, Err(Error::TapeBoundsExceeded));
    assert!(Machine::new(&program, 0).is_err());
    assert!(Machine::with_tape(&program, Vec::new(), 0).is_err());
    let mut output = Vec::new();
    assert_eq!(run(String::from("+"), 0, &[], &mut output, PLENTY), Err(Error::TapeBoundsExceeded));
}

#[test]
fn reading_past_the_input_fails() {
    let mut output = Vec::new();
    let result = run(String::from("+.,."), 1, &[], &mut output, PLENTY);
    assert_eq!(result, Err(Error::InputExhausted));
    assert_eq!(output, vec![1]);
}

#[test]
fn reading_the_last_byte_succeeds_and_the_next_read_fails() {
    let program = translate(",.,.");
    let mut tape = vec![0u8];
    let mut pointer = 0usize;
    let mut output = Vec::new();
    let result = execute(&mut tape, &mut pointer, &program, &[5], &mut output, PLENTY);
    assert_eq!(result, Err(Error::InputExhausted));
    assert_eq!(output, vec![5]);
    assert_eq!(tape, vec![5]);
}

#[test]
fn malformed_text_runs_nothing() {
    let mut output = vec![1u8, 2];
    let result = run(String::from("+.+.]"), 8, b"xyz", &mut output, PLENTY);
    assert_eq!(result, Err(Error::MalformedProgram));
    assert_eq!(output, vec![1, 2]);
    let result = run(String::from("+.[+."), 8, b"xyz", &mut output, PLENTY);
    assert_eq!(result, Err(Error::MalformedProgram));
    assert_eq!(output, vec![1, 2]);
}

#[test]
fn malformed_text_is_found_before_the_tape_is_made() {
    let mut output = Vec::new();
    assert_eq!(run(String::from("]"), 0, &[], &mut output, PLENTY), Err(Error::MalformedProgram));
}

#[test]
fn the_empty_program_halts_at_once() {
    let mut output = Vec::new();
    assert_eq!(run(String::new(), 1, &[], &mut output, 0), halted(0));
    assert!(output.is_empty());
}

#[test]
fn an_endless_loop_is_paused() {
    let program = translate("+[]");
    let mut tape = vec![0u8];
    let mut pointer = 0usize;
    let mut output = Vec::new();
    let result = execute(&mut tape, &mut pointer, &program, &[], &mut output, 10_000);
    assert_eq!(result, paused(0));
    assert_eq!(tape, vec![1]);
}

#[test]
fn no_transitions_change_nothing() {
    let program = translate("+.");
    let mut tape = vec![0u8];
    let mut pointer = 0usize;
    let mut output = Vec::new();
    let result = execute(&mut tape, &mut pointer, &program, &[], &mut output, 0);
    assert_eq!(result, paused(0));
    assert_eq!(tape, vec![0]);
    assert!(output.is_empty());
}

#[test]
fn a_paused_machine_runs_on() {
    let program = translate(HELLO_WORLD);
    let mut whole = Vec::new();
    let mut machine = Machine::new(&program, 64).unwrap();
    assert_eq!(machine.run(&[], &mut whole, PLENTY), halted(0));

    let mut pieces = Vec::new();
    let mut machine = Machine::new(&program, 64).unwrap();
    let mut rounds = 0;
    loop {
        let progress = machine.run(&[], &mut pieces, 7).unwrap();
        rounds += 1;
        if progress.halted {
            break;
        }
        assert!(rounds < 100_000);
    }
    assert!(rounds > 1);
    assert_eq!(pieces, whole);
    assert_eq!(pieces, b"Hello World!\n".to_vec());
}

#[test]
fn a_paused_machine_reads_on_in_the_input_that_is_left() {
    let program = translate(",.,.,.");
    let input = b"xyz";
    let mut output = Vec::new();
    let mut machine = Machine::new(&program, 1).unwrap();
    let first = machine.run(input, &mut output, 3).unwrap();
    assert_eq!(first, Progress { consumed: 2, halted: false });
    assert_eq!(output, b"x".to_vec());
    let second = machine.run(&input[first.consumed..], &mut output, PLENTY).unwrap();
    assert_eq!(second, Progress { consumed: 1, halted: true });
    assert_eq!(output, b"xyz".to_vec());
}

#[test]
fn a_halted_machine_stays_halted() {
    let program = translate("+");
    let mut machine = Machine::new(&program, 1).unwrap();
    let mut output = Vec::new();
    assert_eq!(machine.run(&[], &mut output, PLENTY), halted(0));
    assert!(machine.halted());
    assert_eq!(machine.step(), Ok(Signal::Halted));
    assert_eq!(machine.run(&[], &mut output, PLENTY), halted(0));
    assert_eq!(machine.tape(), &vec![1]);
}

#[test]
fn a_new_machine_has_a_blank_tape() {
    let program = translate("+");
    let machine = Machine::new(&program, 5).unwrap();
    assert_eq!(machine.tape(), &vec![0, 0, 0, 0, 0]);
    assert_eq!(machine.pointer(), 0);
    assert!(!machine.halted());
}

#[test]
fn a_machine_of_the_empty_program_is_halted() {
    let program = translate("");
    let machine = Machine::new(&program, 1).unwrap();
    assert!(machine.halted());
}

#[test]
fn a_machine_can_start_on_a_given_tape() {
    let program = translate(".");
    let mut machine = Machine::with_tape(&program, vec![1, 2, 3], 2).unwrap();
    assert_eq!(machine.pointer(), 2);
    assert_eq!(machine.step(), Ok(Signal::Output(3)));
    assert!(machine.halted());
    assert_eq!(machine.into_tape(), vec![1, 2, 3]);
    assert_eq!(
        Machine::with_tape(&program, vec![1, 2, 3], 3).err(),
        Some(Error::TapeBoundsExceeded)
    );
}

#[test]
fn steps_signal_what_they_need() {
    let program = translate("+[.,]");
    let mut machine = Machine::new(&program, 2).unwrap();
    assert_eq!(machine.step(), Ok(Signal::Continue));
    assert_eq!(machine.tape(), &vec![1, 0]);
    assert_eq!(machine.step(), Ok(Signal::Continue));
    assert_eq!(machine.step(), Ok(Signal::Output(1)));
    assert_eq!(machine.step(), Ok(Signal::NeedsInput));
    assert_eq!(machine.step(), Ok(Signal::NeedsInput));
    assert!(machine.supply(9));
    assert_eq!(machine.tape(), &vec![9, 0]);
    assert_eq!(machine.step(), Ok(Signal::Continue));
    assert_eq!(machine.step(), Ok(Signal::Output(9)));
    assert_eq!(machine.step(), Ok(Signal::NeedsInput));
    assert!(machine.supply(0));
    assert!(!machine.halted());
    assert_eq!(machine.step(), Ok(Signal::Continue));
    assert!(machine.halted());
    assert_eq!(machine.step(), Ok(Signal::Halted));
    assert_eq!(machine.tape(), &vec![0, 0]);
}

#[test]
fn a_byte_nobody_asked_for_is_not_taken() {
    let program = translate("+,");
    let mut machine = Machine::new(&program, 1).unwrap();
    assert!(!machine.supply(7));
    assert_eq!(machine.tape(), &vec![0]);
    assert_eq!(machine.step(), Ok(Signal::Continue));
    assert!(machine.supply(7));
    assert_eq!(machine.tape(), &vec![7]);
    assert!(machine.halted());
    assert!(!machine.supply(8));
    assert_eq!(machine.tape(), &vec![7]);
}

#[test]
fn a_failed_step_leaves_the_machine_as_it_was() {
    let program = translate("<+");
    let mut machine = Machine::new(&program, 3).unwrap();
    assert_eq!(machine.step(), Err(Error::TapeBoundsExceeded));
    assert_eq!(machine.step(), Err(Error::TapeBoundsExceeded));
    assert_eq!(machine.pointer(), 0);
    assert_eq!(machine.tape(), &vec![0, 0, 0]);
    assert!(!machine.halted());
}
