use brainrust::interpreter::{Interpreter, RuntimeError, DEFAULT_TAPE_SIZE};
use brainrust::cli::InterpreterConfig;
use brainrust::token::Token;

fn test_interpreter(code: &str) -> Interpreter {
    Interpreter::new(code, Vec::new(), Vec::new())
}

fn parametrized_constructs_properly(code: &str) {
    let interpreter = test_interpreter(code);

    assert_eq!(0, interpreter.get_current_pc());
    assert_eq!(0, interpreter.get_current_memory_pointer());
    assert_eq!(&[0u8; DEFAULT_TAPE_SIZE][..], interpreter.mem_dump());
}

#[test]
fn constructs_properly() {
    parametrized_constructs_properly("");
    parametrized_constructs_properly("+++>+++<---.");
    parametrized_constructs_properly("------");
    parametrized_constructs_properly("<<<<");
}

#[test]
fn returns_error_on_tape_underflow() {
    let mut interpreter = test_interpreter("");

    assert!(matches!(
        interpreter.handle_move_left(),
        Err(RuntimeError::MemoryPointerOutOfBounds { .. })
    ));
}

#[test]
fn returns_error_on_tape_overflow() {
    let mut interpreter = test_interpreter("");
    interpreter.set_memory_pointer(DEFAULT_TAPE_SIZE);

    assert!(matches!(
        interpreter.handle_move_right(),
        Err(RuntimeError::MemoryPointerOutOfBounds { .. })
    ));
}

#[test]
fn returns_error_on_memory_access_out_of_range() {
    let interpreter = test_interpreter("");

    assert!(matches!(
        interpreter.fetch_memory(DEFAULT_TAPE_SIZE),
        Err(RuntimeError::MemoryAccessOutOfBounds { .. })
    ));
}

#[test]
fn returns_error_on_memory_access_out_of_range_mut() {
    let mut interpreter = test_interpreter("");

    assert!(matches!(
        interpreter.fetch_memory_mut(DEFAULT_TAPE_SIZE),
        Err(RuntimeError::MemoryAccessOutOfBounds { .. })
    ));
}

#[test]
fn handle_move_right() {
    let mut interpreter = test_interpreter("");
    interpreter.handle_move_right().unwrap();

    assert_eq!(1, interpreter.get_current_memory_pointer());
}

#[test]
fn handle_move_left() {
    let mut interpreter = test_interpreter("");
    interpreter.set_memory_pointer(1);
    interpreter.handle_move_left().unwrap();
    assert_eq!(0, interpreter.get_current_memory_pointer());
}

#[test]
fn handle_increment_no_wrap() {
    let mut interpreter = test_interpreter("");
    interpreter.handle_increment().unwrap();

    assert_eq!(
        1,
        *interpreter
            .fetch_memory(interpreter.get_current_memory_pointer())
            .unwrap()
    );
}

#[test]
fn handle_increment_wrap() {
    let mut interpreter = test_interpreter("");
    let pointer = interpreter.get_current_memory_pointer();
    *interpreter.fetch_memory_mut(pointer).unwrap() = 255;
    interpreter.handle_increment().unwrap();

    assert_eq!(
        0,
        *interpreter
            .fetch_memory(interpreter.get_current_memory_pointer())
            .unwrap()
    );
}

#[test]
fn handle_decrement_no_wrap() {
    let mut interpreter = test_interpreter("");
    let pointer = interpreter.get_current_memory_pointer();
    *interpreter.fetch_memory_mut(pointer).unwrap() = 1;
    interpreter.handle_decrement().unwrap();

    assert_eq!(
        0,
        *interpreter
            .fetch_memory(interpreter.get_current_memory_pointer())
            .unwrap()
    );
}

#[test]
fn handle_decrement_wrap() {
    let mut interpreter = test_interpreter("");
    interpreter.handle_decrement().unwrap();

    assert_eq!(
        255,
        *interpreter
            .fetch_memory(interpreter.get_current_memory_pointer())
            .unwrap()
    );
}

#[test]
fn handle_output_writes_cell_to_sink() {
    let mut interpreter = test_interpreter("");
    *interpreter.fetch_memory_mut(0).unwrap() = b'A';

    interpreter.handle_output().unwrap();

    assert_eq!(b"A", interpreter.output());
}

#[test]
fn handle_input_stores_single_bytes() {
    let mut interpreter = Interpreter::new("", b"ab".to_vec(), Vec::new());

    interpreter.handle_input().unwrap();
    assert_eq!(b'a', *interpreter.fetch_memory(0).unwrap());

    interpreter.handle_input().unwrap();
    assert_eq!(b'b', *interpreter.fetch_memory(0).unwrap());
}

#[test]
fn handle_input_stores_eof_byte_at_end_of_input() {
    let mut interpreter = test_interpreter("");

    interpreter.handle_input().unwrap();

    assert_eq!(0, *interpreter.fetch_memory(0).unwrap());
}

#[test]
fn jump_to_closest_bracket1() {
    let mut interpreter = Interpreter::new("+[>++<-]", Vec::new(), Vec::new());

    interpreter.step().unwrap();
    assert_eq!(1, interpreter.get_current_pc());

    interpreter.jump_to_closest_bracket();
    assert_eq!(7, interpreter.get_current_pc());
}

#[test]
fn handle_loop_start_doesnt_jump_when_non_zero() {
    let mut interpreter = Interpreter::new("+[>+<-]", Vec::new(), Vec::new());

    interpreter.step().unwrap();

    interpreter.handle_loop_start().unwrap();
    assert_eq!(1, interpreter.get_current_pc());
}

#[test]
fn handle_loop_start_jump_when_zero() {
    let mut interpreter = Interpreter::new("[>+<-]", Vec::new(), Vec::new());

    interpreter.handle_loop_start().unwrap();
    assert_eq!(5, interpreter.get_current_pc());
}

#[test]
fn handle_loop_close_doesnt_jump_when_lt_zero() {
    let mut interpreter = Interpreter::new("+[-]", Vec::new(), Vec::new());
    interpreter.step().unwrap();
    interpreter.step().unwrap();
    interpreter.step().unwrap();

    interpreter.handle_loop_close().unwrap();
    assert_eq!(3, interpreter.get_current_pc());
}

#[test]
fn handle_loop_close_jump_when_gt_zero() {
    let mut interpreter = Interpreter::new("+[]", Vec::new(), Vec::new());
    interpreter.step().unwrap();
    interpreter.step().unwrap();

    interpreter.handle_loop_close().unwrap();
    assert_eq!(1, interpreter.get_current_pc());
}

#[test]
fn returns_error_when_stepping_past_program_end() {
    let mut interpreter = test_interpreter("+");
    interpreter.set_program_counter(10);

    assert!(matches!(
        interpreter.step(),
        Err(RuntimeError::InstructionFetch { .. })
    ));
}

#[test]
fn run_stops_with_error_on_pointer_underflow() {
    let mut interpreter = test_interpreter("<<<");

    assert!(matches!(
        interpreter.run(usize::MAX),
        Err(RuntimeError::MemoryPointerOutOfBounds { .. })
    ));
}

#[test]
fn run_executes_loop_transfer_and_output() {
    let mut interpreter = test_interpreter("+++[>+<-]>.");

    interpreter.run(usize::MAX).unwrap();

    assert_eq!(0, *interpreter.fetch_memory(0).unwrap());
    assert_eq!(3, *interpreter.fetch_memory(1).unwrap());
    assert_eq!(b"\x03", interpreter.output());
}

#[test]
fn run_echoes_input_until_eof() {
    let mut interpreter = Interpreter::new(",[.,]", b"hi".to_vec(), Vec::new());

    interpreter.run(usize::MAX).unwrap();

    assert_eq!(b"hi", interpreter.output());
}

#[test]
fn run_skips_comments() {
    let mut interpreter = test_interpreter("++comment.");

    interpreter.run(usize::MAX).unwrap();

    assert_eq!(b"\x02", interpreter.output());
}

#[test]
fn run_prints_memory_dump_when_requested() {
    let mut interpreter = test_interpreter("++");

    interpreter.run(usize::MAX).unwrap();

    assert_eq!(2, *interpreter.fetch_memory(0).unwrap());
    assert_eq!(2, interpreter.mem_dump()[0]);
}

#[test]
fn display_shows_state_and_survives_end_of_program() {
    let interpreter = test_interpreter("+");
    let text = interpreter.to_string();
    assert!(text.contains("PC: 0"));
    assert!(text.contains("Instruction: Increment"));

    let mut interpreter = test_interpreter("+");
    interpreter.run(usize::MAX).unwrap();
    let text = interpreter.to_string();
    assert!(text.contains("end of program"));
}

// ---- further scenarios ----

#[test]
fn display_shows_the_whole_state() {
    let interpreter = Interpreter::with_config("+", &InterpreterConfig { memsize: 3 }, Vec::new(), Vec::new());
    assert_eq!(
        "---\nPC: 0\nInstruction: Increment\nMemory Pointer: 0\nMemory Dump: [0, 0, 0]",
        interpreter.to_string()
    );
    let interpreter = Interpreter::with_config("a\"b", &InterpreterConfig { memsize: 1 }, Vec::new(), Vec::new());
    assert_eq!(
        "---\nPC: 0\nInstruction: Comment(\"a\\\"b\")\nMemory Pointer: 0\nMemory Dump: [0]",
        interpreter.to_string()
    );
}

#[test]
fn run_stops_after_the_step_budget() {
    let mut interpreter = test_interpreter("+[]");
    assert_eq!(false, interpreter.run(10).unwrap());
    assert_eq!(1, *interpreter.fetch_memory(0).unwrap());
    let mut interpreter = test_interpreter("+++");
    assert_eq!(false, interpreter.run(2).unwrap());
    assert_eq!(true, interpreter.run(1).unwrap());
    assert_eq!(3, *interpreter.fetch_memory(0).unwrap());
}

#[test]
fn run_in_two_parts_equals_run_at_once() {
    let mut a = test_interpreter("++[>+++<-]>.");
    let mut b = test_interpreter("++[>+++<-]>.");
    a.run(usize::MAX).unwrap();
    assert_eq!(false, b.run(5).unwrap());
    assert_eq!(true, b.run(usize::MAX).unwrap());
    assert_eq!(a.mem_dump(), b.mem_dump());
    assert_eq!(a.output(), b.output());
    assert_eq!(a.get_current_pc(), b.get_current_pc());
}

#[test]
fn halted_program_stays_halted() {
    let mut interpreter = test_interpreter("+");
    assert!(interpreter.run(usize::MAX).unwrap());
    assert!(interpreter.run(usize::MAX).unwrap());
    assert_eq!(1, interpreter.get_current_pc());
    assert_eq!(1, *interpreter.fetch_memory(0).unwrap());
}

#[test]
fn increment_then_decrement_restores_cell() {
    let mut interpreter = test_interpreter("");
    *interpreter.fetch_memory_mut(0).unwrap() = 200;
    interpreter.handle_increment().unwrap();
    interpreter.handle_decrement().unwrap();
    assert_eq!(200, *interpreter.fetch_memory(0).unwrap());
    interpreter.handle_decrement().unwrap();
    interpreter.handle_increment().unwrap();
    assert_eq!(200, *interpreter.fetch_memory(0).unwrap());
}

#[test]
fn move_right_then_left_restores_pointer() {
    let mut interpreter = test_interpreter("");
    interpreter.set_memory_pointer(41);
    interpreter.handle_move_right().unwrap();
    interpreter.handle_move_left().unwrap();
    assert_eq!(41, interpreter.get_current_memory_pointer());
}

#[test]
fn move_right_stops_at_last_cell() {
    let mut interpreter = test_interpreter("");
    interpreter.set_memory_pointer(DEFAULT_TAPE_SIZE - 2);
    interpreter.handle_move_right().unwrap();
    assert!(matches!(
        interpreter.handle_move_right(),
        Err(RuntimeError::MemoryPointerOutOfBounds { pc: 0, pointer: 499 })
    ));
    assert_eq!(DEFAULT_TAPE_SIZE - 1, interpreter.get_current_memory_pointer());
}

#[test]
fn output_of_high_cell_is_utf8() {
    let mut interpreter = test_interpreter("");
    *interpreter.fetch_memory_mut(0).unwrap() = 0xE9;
    interpreter.handle_output().unwrap();
    assert_eq!("é".as_bytes(), interpreter.output());
    assert_eq!(vec![0xC3, 0xA9], interpreter.take_output());
    assert!(interpreter.output().is_empty());
}

#[test]
fn input_off_tape_still_consumes_byte() {
    let mut interpreter = Interpreter::new("", b"xy".to_vec(), Vec::new());
    interpreter.set_memory_pointer(DEFAULT_TAPE_SIZE);
    assert!(matches!(
        interpreter.handle_input(),
        Err(RuntimeError::MemoryAccessOutOfBounds { cell: 500, tape_size: 500 })
    ));
    interpreter.set_memory_pointer(0);
    interpreter.handle_input().unwrap();
    assert_eq!(b'y', *interpreter.fetch_memory(0).unwrap());
}

#[test]
fn pushed_input_is_read_in_order() {
    let mut interpreter = test_interpreter(",>,");
    assert!(!interpreter.has_pending_input());
    interpreter.push_input(7);
    interpreter.push_input(9);
    assert!(interpreter.has_pending_input());
    interpreter.run(usize::MAX).unwrap();
    assert_eq!(&[7, 9], &interpreter.mem_dump()[..2]);
    assert!(!interpreter.has_pending_input());
}

#[test]
fn configured_tape_size_is_used() {
    let mut interpreter =
        Interpreter::with_config(">>", &InterpreterConfig { memsize: 2 }, Vec::new(), Vec::new());
    assert_eq!(2, interpreter.mem_dump().len());
    assert!(matches!(
        interpreter.run(usize::MAX),
        Err(RuntimeError::MemoryPointerOutOfBounds { pc: 1, pointer: 1 })
    ));
}

#[test]
fn zero_sized_tape_rejects_every_access() {
    let mut interpreter =
        Interpreter::with_config("+", &InterpreterConfig { memsize: 0 }, Vec::new(), Vec::new());
    assert!(matches!(
        interpreter.step(),
        Err(RuntimeError::MemoryAccessOutOfBounds { cell: 0, tape_size: 0 })
    ));
    assert_eq!(0, interpreter.get_current_pc());
}

#[test]
fn fetch_instruction_follows_program_counter() {
    let mut interpreter = test_interpreter("+x");
    assert_eq!(Some(Token::Increment), interpreter.fetch_instruction());
    interpreter.step().unwrap();
    assert_eq!(Some(Token::Comment(String::from("x"))), interpreter.fetch_instruction());
    interpreter.step().unwrap();
    assert_eq!(None, interpreter.fetch_instruction());
    assert!(!interpreter.has_instruction());
}

#[test]
fn execute_instruction_does_not_advance() {
    let mut interpreter = test_interpreter("");
    interpreter.execute_instruction(Token::Increment).unwrap();
    interpreter.execute_instruction(Token::Comment(String::from("z"))).unwrap();
    assert_eq!(0, interpreter.get_current_pc());
    assert_eq!(1, *interpreter.fetch_memory(0).unwrap());
}

#[test]
fn program_of_interpreter() {
    let interpreter = test_interpreter("[-]");
    assert_eq!(3, interpreter.get_program().get_instruction_count());
    assert_eq!(Some(&2), interpreter.get_program().get_matching_bracket(0));
}

#[test]
fn readme_inline_program_prints_a() {
    let mut interpreter = test_interpreter("++++++[>++++++++++<-]>+++++.");
    assert!(interpreter.run(usize::MAX).unwrap());
    assert_eq!(b"A", interpreter.output());
}

#[test]
fn readme_echo_program_copies_input() {
    let mut interpreter = Interpreter::new(",[.,]", b"hello\n".to_vec(), Vec::new());
    assert!(interpreter.run(usize::MAX).unwrap());
    assert_eq!(b"hello\n", interpreter.output());
}

#[test]
fn readme_interactive_view_after_first_loop_pass() {
    // After 19 steps the first pass of the loop has filled the second cell;
    // the README's picture shows the caret at instruction 19 and cells 6, 10.
    let mut interpreter = test_interpreter("++++++[>++++++++++<-]>+++++.");
    for _ in 0..19 {
        interpreter.step().unwrap();
    }
    let program = interpreter.get_program().clone();
    assert_eq!(
        "++++++[>++++++++++<-]>+++++.\n                   ^",
        brainrust::cli::render_program(&program, interpreter.get_current_pc())
    );
    assert_eq!(
        "6 10\n^",
        brainrust::cli::render_memory(interpreter.mem_dump(), interpreter.get_current_memory_pointer(), 1)
    );
}

#[test]
fn step_changes_only_the_current_cell_and_appends_output() {
    let mut interpreter = test_interpreter("+>++.<.");
    *interpreter.fetch_memory_mut(5).unwrap() = 42;
    let mut previous_output: Vec<u8> = Vec::new();
    while interpreter.has_instruction() {
        let before: Vec<u8> = interpreter.mem_dump().to_vec();
        let pointer = interpreter.get_current_memory_pointer();
        interpreter.step().unwrap();
        for (i, (a, b)) in before.iter().zip(interpreter.mem_dump()).enumerate() {
            if i != pointer {
                assert_eq!(a, b);
            }
        }
        assert!(interpreter.output().starts_with(&previous_output));
        previous_output = interpreter.output().to_vec();
    }
    assert_eq!(&[2, 1], interpreter.output());
    assert_eq!(42, *interpreter.fetch_memory(5).unwrap());
}

#[test]
fn step_at_open_bracket_with_zero_cell_lands_after_partner() {
    let mut interpreter = test_interpreter("[>+<-]+");
    interpreter.step().unwrap();
    assert_eq!(6, interpreter.get_current_pc());
    let mut interpreter = test_interpreter("+[-]");
    interpreter.step().unwrap();
    interpreter.step().unwrap();
    interpreter.step().unwrap();
    assert_eq!(0, *interpreter.fetch_memory(0).unwrap());
    interpreter.step().unwrap();
    assert_eq!(4, interpreter.get_current_pc());
}
