use brainfuck::cpu::Cpu;
use brainfuck::machine::{Machine, StepStatus};
use brainfuck::semantics::VmError;

#[test]
fn test_new_cpu() {
    let cpu = Cpu::new(String::from("++++++++++"), 2048, 0);
    assert_eq!(cpu.feed_tape, "++++++++++");
    assert_eq!(cpu.data_pointer, 0);
}

#[test]
fn test_run_cpu() {
    let mut cpu = Cpu::new(String::from("++++++++++"), 2048, 0);
    let result = cpu.run(None);
    assert!(result.is_ok());
}

#[test]
fn test_hello_world() {
    let mut cpu = Cpu::new(
        String::from(
            "++++++++++[>+++++++>++++++++++>+++>+<<<<-]>++.>+.+++++++\
            ..+++.>++.<<+++++++++++++++.>.+++.------.--------.>+.>.",
        ),
        2048,
        0,
    );
    cpu.one_shot_output = true;
    let result = cpu.run(None);
    assert!(result.is_ok());
    assert_eq!(cpu.output, "Hello World!\n");
}

#[test]
fn test_hello_world_file() {
    let program = "++++++++[>++++[>++>+++>+++>+<<<<-]>+>+>->>+[<]<-]\
        >>.>---.+++++++..+++.>>.<-.<.+++.------.--------.>>+.>++.";
    let mut cpu = Cpu::new(String::from(program), 2048, 0);
    cpu.one_shot_output = true;
    let result = cpu.run(None);
    assert!(result.is_ok());
    assert_eq!(cpu.output, "Hello World!\n");
}

#[test]
fn test_add_numbers() {
    let program = "++>+++++[<+>-]++++++++[<++++++>-]<.";
    let mut cpu = Cpu::new(String::from(program), 2048, 0);
    cpu.one_shot_output = true;
    let result = cpu.run(None);
    assert!(result.is_ok());
    assert_eq!(cpu.output, "7");
}

#[test]
fn test_input() {
    let program = r#"
        ,.
        "#;
    let mut cpu = Cpu::new(String::from(program), 2048, 0);
    cpu.one_shot_output = true;
    let result = cpu.run(Some("1".to_string()));
    assert!(result.is_ok());
    assert_eq!(cpu.output, "1");
}

#[test]
fn same_program_runs_identically() {
    let program = "++++++++++[>+++++++>++++++++++>+++>+<<<<-]>++.>+.+++++++\
        ..+++.>++.<<+++++++++++++++.>.+++.------.--------.>+.>.";
    let mut first = Cpu::new(String::from(program), 2048, 0);
    let mut second = Cpu::new(String::from(program), 2048, 0);
    assert!(first.run(None).is_ok());
    assert!(second.run(None).is_ok());
    assert_eq!(first.output, second.output);
}

#[test]
fn plus_256_times_wraps_to_zero() {
    let mut program = "+".repeat(256);
    program.push('.');
    let mut cpu = Cpu::new(program, 16, 0);
    assert!(cpu.run(None).is_ok());
    assert_eq!(cpu.output, "\u{0}");
}

#[test]
fn minus_once_from_zero_gives_255() {
    let mut cpu = Cpu::new(String::from("-."), 16, 0);
    assert!(cpu.run(None).is_ok());
    assert_eq!(cpu.output, "\u{ff}");
}

#[test]
fn unbalanced_open_bracket_is_malformed() {
    let mut cpu = Cpu::new(String::from("["), 16, 0);
    assert_eq!(cpu.run(None), Err(VmError::MalformedProgram));
    assert_eq!(cpu.output, "");
}

#[test]
fn unbalanced_close_bracket_is_malformed() {
    let mut cpu = Cpu::new(String::from("+]"), 16, 0);
    assert_eq!(cpu.run(None), Err(VmError::MalformedProgram));
}

#[test]
fn close_bracket_on_zero_cell_just_passes() {
    // A lone `]` over a zero cell never has to jump, so nothing is ever
    // scanned and the run completes.
    let mut cpu = Cpu::new(String::from("]"), 16, 0);
    assert!(cpu.run(None).is_ok());
    assert_eq!(cpu.output, "");
}

#[test]
fn nested_brackets_pair_by_depth() {
    let mut cpu = Cpu::new(String::from("++[>++[>++<-]<-]>>."), 16, 0);
    assert!(cpu.run(None).is_ok());
    assert_eq!(cpu.output, "\u{8}");
}

#[test]
fn output_kept_up_to_fatal_error() {
    let mut cpu = Cpu::new(String::from("+.-["), 16, 0);
    assert_eq!(cpu.run(None), Err(VmError::MalformedProgram));
    assert_eq!(cpu.output, "\u{1}");
}

#[test]
fn comma_without_input_is_exhausted() {
    let mut cpu = Cpu::new(String::from(","), 16, 0);
    assert_eq!(cpu.run(None), Err(VmError::InputExhausted));
}

#[test]
fn comma_past_supplied_input_is_exhausted() {
    let mut cpu = Cpu::new(String::from(",.,."), 16, 0);
    assert_eq!(cpu.run(Some(String::from("A"))), Err(VmError::InputExhausted));
    assert_eq!(cpu.output, "A");
}

#[test]
fn tier2_opcode_below_level_2_is_noop() {
    // `$` stores 3 at level 1; `*` belongs to tier 2 and must do nothing.
    let mut gated = Cpu::new(String::from("+++$*."), 16, 1);
    assert!(gated.run(None).is_ok());
    assert_eq!(gated.output, "\u{3}");

    // The same program with tier 2 active multiplies 3 by the storage.
    let mut active = Cpu::new(String::from("+++$*."), 16, 2);
    assert!(active.run(None).is_ok());
    assert_eq!(active.output, "\u{9}");
}

#[test]
fn tier1_opcode_below_level_1_is_noop() {
    let mut cpu = Cpu::new(String::from("+++$!~."), 16, 0);
    assert!(cpu.run(None).is_ok());
    assert_eq!(cpu.output, "\u{3}");
}

#[test]
fn division_by_zero_storage_is_not_fatal() {
    // Storage register never written: `/` must leave the cell unchanged.
    let mut cpu = Cpu::new(String::from("+++/."), 16, 2);
    assert!(cpu.run(None).is_ok());
    assert_eq!(cpu.output, "\u{3}");
}

#[test]
fn remainder_by_zero_storage_is_not_fatal() {
    let mut cpu = Cpu::new(String::from("+++%."), 16, 2);
    assert!(cpu.run(None).is_ok());
    assert_eq!(cpu.output, "\u{3}");
}

#[test]
fn storage_round_trip() {
    // Store 3, count the cell up to 8, then restore 3 from storage.
    let mut cpu = Cpu::new(String::from("+++$+++++!."), 16, 1);
    assert!(cpu.run(None).is_ok());
    assert_eq!(cpu.output, "\u{3}");
}

#[test]
fn shifts_halve_and_double() {
    let mut right = Cpu::new(String::from("+++}."), 16, 1);
    assert!(right.run(None).is_ok());
    assert_eq!(right.output, "\u{1}");

    let mut left = Cpu::new(String::from("+++{."), 16, 1);
    assert!(left.run(None).is_ok());
    assert_eq!(left.output, "\u{6}");
}

#[test]
fn shift_left_discards_top_bit() {
    // 128 doubled wraps to 0.
    let mut program = "+".repeat(128);
    program.push_str("{.");
    let mut cpu = Cpu::new(program, 16, 1);
    assert!(cpu.run(None).is_ok());
    assert_eq!(cpu.output, "\u{0}");
}

#[test]
fn bitwise_not_xor_and_or() {
    let mut not = Cpu::new(String::from("++~."), 16, 1);
    assert!(not.run(None).is_ok());
    assert_eq!(not.output, "\u{fd}");

    // cell 6, storage 6, xor gives 0; then or restores 6.
    let mut xor = Cpu::new(String::from("++++++$^.!|."), 16, 1);
    assert!(xor.run(None).is_ok());
    assert_eq!(xor.output, "\u{0}\u{6}");

    // cell 12, storage 10: and gives 8.
    let mut and = Cpu::new(String::from("++++++++++$++&."), 16, 1);
    assert!(and.run(None).is_ok());
    assert_eq!(and.output, "\u{8}");
}

#[test]
fn tier2_arithmetic_against_storage() {
    // cell 5, storage 5: `=` doubles to 10, `_` takes it back to 5.
    let mut cpu = Cpu::new(String::from("+++++$=._."), 16, 2);
    assert!(cpu.run(None).is_ok());
    assert_eq!(cpu.output, "\u{a}\u{5}");

    // cell 7, storage 2: `/` gives 3, `%` of 3 by 2 gives 1.
    let mut div = Cpu::new(String::from("++$+++++/.%."), 16, 2);
    assert!(div.run(None).is_ok());
    assert_eq!(div.output, "\u{3}\u{1}");
}

#[test]
fn multiplication_wraps_modulo_256() {
    // cell 16, storage 16: 256 wraps to 0.
    let mut cpu = Cpu::new(String::from("++++++++++++++++$*."), 16, 2);
    assert!(cpu.run(None).is_ok());
    assert_eq!(cpu.output, "\u{0}");
}

#[test]
fn halt_opcode_stops_cleanly() {
    let mut halted = Cpu::new(String::from("+.@+."), 16, 1);
    assert!(halted.run(None).is_ok());
    assert_eq!(halted.output, "\u{1}");

    // Below level 1 the same `@` is inert and both dots print.
    let mut inert = Cpu::new(String::from("+.@+."), 16, 0);
    assert!(inert.run(None).is_ok());
    assert_eq!(inert.output, "\u{1}\u{2}");
}

#[test]
fn data_pointer_clamps_at_both_edges() {
    // `<` at cell 0 stays put; the `+` lands on the same cell.
    let mut low = Cpu::new(String::from("+<+."), 16, 0);
    assert!(low.run(None).is_ok());
    assert_eq!(low.output, "\u{2}");

    // On a one-cell tape `>` stays put as well.
    let mut high = Cpu::new(String::from(">+>+."), 1, 0);
    assert!(high.run(None).is_ok());
    assert_eq!(high.output, "\u{2}");
}

#[test]
fn unclaimed_characters_are_noops() {
    let mut cpu = Cpu::new(String::from("+ a\nb\t+."), 16, 0);
    assert!(cpu.run(None).is_ok());
    assert_eq!(cpu.output, "\u{2}");
}

#[test]
fn tier3_symbols_are_inert_noops() {
    let mut cpu = Cpu::new(String::from("+XxMmLl:#09AF+."), 16, 3);
    assert!(cpu.run(None).is_ok());
    assert_eq!(cpu.output, "\u{2}");
}

#[test]
fn state_survives_between_runs() {
    // The data pointer and storage persist; the output accumulates.
    let mut cpu = Cpu::new(String::from(">>+++$."), 16, 1);
    assert!(cpu.run(None).is_ok());
    assert_eq!(cpu.output, "\u{3}");
    assert_eq!(cpu.data_pointer, 2);
    assert_eq!(cpu.storage, 3);
    // The second run starts on a fresh tape but at cell 2 with storage 3.
    cpu.feed_tape = String::from("!.");
    assert!(cpu.run(None).is_ok());
    assert_eq!(cpu.output, "\u{3}\u{3}");
}

#[test]
fn input_is_consumed_byte_by_byte() {
    // A two-byte character supplies two input bytes, read one at a time.
    let mut cpu = Cpu::new(String::from(",.,."), 16, 0);
    assert!(cpu.run(Some(String::from("é"))).is_ok());
    let bytes: Vec<u32> = cpu.output.chars().map(|c| c as u32).collect();
    assert_eq!(bytes, vec![0xc3, 0xa9]);
}

#[test]
fn non_ascii_program_characters_are_noops() {
    let mut cpu = Cpu::new(String::from("héllo wörld +."), 16, 0);
    assert!(cpu.run(None).is_ok());
    assert_eq!(cpu.output, "\u{1}");
}

#[test]
fn machine_single_steps_and_awaits_input() {
    let program: Vec<char> = ",.".chars().collect();
    let mut m = Machine::new(program, 16, 0, Vec::new(), 0, 0);
    assert_eq!(m.step(), Ok(StepStatus::AwaitingInput));
    m.push_input(b'Z');
    assert_eq!(m.step(), Ok(StepStatus::Ran));
    assert_eq!(m.step(), Ok(StepStatus::Ran));
    assert_eq!(m.step(), Ok(StepStatus::Finished));
    assert_eq!(m.out, vec![b'Z']);
}

#[test]
fn machine_reports_reserved_opcodes() {
    let program: Vec<char> = "?".chars().collect();
    let mut gated = Machine::new(program, 16, 0, Vec::new(), 0, 0);
    assert_eq!(gated.step(), Ok(StepStatus::Ran));

    let program: Vec<char> = "?".chars().collect();
    let mut active = Machine::new(program, 16, 2, Vec::new(), 0, 0);
    assert_eq!(active.step(), Ok(StepStatus::Unimplemented));

    let program: Vec<char> = "X".chars().collect();
    let mut tier3 = Machine::new(program, 16, 3, Vec::new(), 0, 0);
    assert_eq!(tier3.step(), Ok(StepStatus::Unimplemented));
}

#[test]
fn machine_budget_pauses_and_resumes() {
    let program: Vec<char> = "+++.".chars().collect();
    let mut m = Machine::new(program, 16, 0, Vec::new(), 0, 0);
    assert_eq!(m.run_for(2), Ok(false));
    assert_eq!(m.out, Vec::<u8>::new());
    assert_eq!(m.run_for(1000), Ok(true));
    assert_eq!(m.out, vec![3u8]);
}

#[test]
fn machine_step_reports_malformed_jump() {
    let program: Vec<char> = "[".chars().collect();
    let mut m = Machine::new(program, 16, 0, Vec::new(), 0, 0);
    assert_eq!(m.step(), Err(VmError::MalformedProgram));
}
