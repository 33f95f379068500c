use aoc19::arith;
use aoc19::intcode::{
    parse_code, Computer, ExecErrorKind, HaltReason, Operation, ParameterMode, ParseCodeError,
};

fn run_program(code: &[i32]) -> Computer {
    let mut computer = Computer::new(code, vec![]);
    computer.run().unwrap();
    computer
}

#[test]
fn add_program_updates_memory() {
    let computer = run_program(&[1, 0, 0, 0, 99]);
    assert_eq!(computer.memory(), &[2, 0, 0, 0, 99]);
}

#[test]
fn add_then_multiply_program() {
    let computer = run_program(&[1, 9, 10, 3, 2, 3, 11, 0, 99, 30, 40, 50]);
    assert_eq!(&computer.memory()[..4], &[3500, 9, 10, 70]);
}

#[test]
fn small_add_multiply_programs() {
    assert_eq!(run_program(&[2, 3, 0, 3, 99]).memory(), &[2, 3, 0, 6, 99]);
    assert_eq!(run_program(&[2, 4, 4, 5, 99, 0]).memory(), &[2, 4, 4, 5, 99, 9801]);
    assert_eq!(
        run_program(&[1, 1, 1, 4, 99, 5, 6, 0, 99]).memory(),
        &[30, 1, 1, 4, 2, 5, 6, 0, 99]
    );
}

#[test]
fn add_multiply_machine_agrees_with_full_machine() {
    let programs: Vec<Vec<i32>> = vec![
        vec![1, 0, 0, 0, 99],
        vec![1, 9, 10, 3, 2, 3, 11, 0, 99, 30, 40, 50],
        vec![2, 4, 4, 5, 99, 0],
        vec![1, 1, 1, 4, 99, 5, 6, 0, 99],
    ];
    for code in programs {
        let mut memory = code.clone();
        arith::exec_code(&mut memory, 0).unwrap();
        let computer = run_program(&code);
        assert_eq!(computer.memory(), memory.as_slice());
    }
}

#[test]
fn add_multiply_machine_rejects_other_opcodes() {
    let mut memory = vec![3, 0, 99];
    assert!(arith::exec_code(&mut memory, 0).is_err());
    assert!(matches!(arith::Operation::from_opcode(2), Ok(arith::Operation::Multiply)));
    assert!(arith::Operation::from_opcode(4).is_err());
}

#[test]
fn decode_mode_digits() {
    assert_eq!(
        Operation::from_integer(1002),
        Ok(Operation::Multiply {
            fst_mode: ParameterMode::Position,
            snd_mode: ParameterMode::Immediate
        })
    );
    assert_eq!(
        Operation::from_integer(101),
        Ok(Operation::Add {
            fst_mode: ParameterMode::Immediate,
            snd_mode: ParameterMode::Position
        })
    );
    assert_eq!(
        Operation::from_integer(1108),
        Ok(Operation::Equals {
            fst_mode: ParameterMode::Immediate,
            snd_mode: ParameterMode::Immediate
        })
    );
    assert_eq!(Operation::from_integer(3), Ok(Operation::Input));
    assert_eq!(Operation::from_integer(104), Ok(Operation::Output(ParameterMode::Immediate)));
    assert_eq!(Operation::from_integer(99), Ok(Operation::Terminate));
}

#[test]
fn decode_rejects_bad_words() {
    assert!(Operation::from_integer(9).is_err());
    assert!(Operation::from_integer(0).is_err());
    assert!(Operation::from_integer(42).is_err());
    assert!(Operation::from_integer(1202).is_err());
    assert!(Operation::from_integer(-1).is_err());
}

#[test]
fn decode_error_leaves_memory_untouched() {
    let code = [9, 0, 0, 0, 99];
    let mut computer = Computer::new(&code, vec![]);
    let err = computer.run().unwrap_err();
    assert_eq!(err.kind, ExecErrorKind::Decode);
    assert_eq!(computer.memory(), &code);
    assert_eq!(computer.counter(), 0);
}

#[test]
fn immediate_output() {
    let computer = run_program(&[104, 17, 99]);
    assert_eq!(computer.output(), &[17]);
}

#[test]
fn comparisons_write_zero_or_one() {
    let pairs = [(3, 5), (5, 3), (4, 4), (i32::MIN, i32::MAX), (i32::MAX, i32::MIN), (-7, -7)];
    for (a, b) in pairs {
        let lt = run_program(&[1107, a, b, 5, 99, 42]);
        assert_eq!(lt.memory()[5], if a < b { 1 } else { 0 });
        let eq = run_program(&[1108, a, b, 5, 99, 42]);
        assert_eq!(eq.memory()[5], if a == b { 1 } else { 0 });
    }
    let pos = run_program(&[8, 5, 6, 7, 99, 10, 10, 42]);
    assert_eq!(pos.memory()[7], 1);
}

#[test]
fn resumable_run_waits_for_input() {
    let mut computer = Computer::new(&[3, 0, 4, 0, 99], vec![]);
    assert_eq!(computer.run_adv(), Ok(HaltReason::Input));
    assert_eq!(computer.counter(), 0);
    assert_eq!(computer.memory(), &[3, 0, 4, 0, 99]);
    computer.push_input(31);
    assert_eq!(computer.run_adv(), Ok(HaltReason::Terminate));
    assert_eq!(computer.output(), &[31]);
}

#[test]
fn feedback_two_echo_machines() {
    let code = [3, 0, 4, 0, 99];
    let mut machines = vec![Computer::new(&code, vec![]), Computer::new(&code, vec![])];
    let mut signal = 5;
    let mut runs = [0, 0];
    let mut i = 0;
    loop {
        machines[i].push_input(signal);
        let halt = machines[i].run_adv().unwrap();
        runs[i] += 1;
        signal = machines[i].pop_output().unwrap();
        i += 1;
        if i == machines.len() {
            i = 0;
            if halt == HaltReason::Terminate {
                break;
            }
        }
    }
    assert_eq!(signal, 5);
    assert_eq!(runs, [1, 1]);
}

#[test]
fn pop_output_takes_latest() {
    let mut computer = run_program(&[104, 1, 104, 2, 99]);
    assert_eq!(computer.output(), &[1, 2]);
    assert_eq!(computer.pop_output(), Some(2));
    assert_eq!(computer.pop_output(), Some(1));
    assert_eq!(computer.pop_output(), None);
}

#[test]
fn jumps_use_raw_target() {
    // 1105: jump to 4 when 1 is nonzero; then output 7.
    let taken = run_program(&[1105, 1, 4, 99, 104, 7, 99]);
    assert_eq!(taken.output(), &[7]);
    // 1106: 1 is nonzero, so no jump: advance by three to the output.
    let not_taken = run_program(&[1106, 1, 7, 104, 8, 99, 99, 104, 9, 99]);
    assert_eq!(not_taken.output(), &[8]);
    // 6 with a position-mode condition at cell 6 (zero): jump to 7.
    let pos = run_program(&[6, 6, 7, 104, 1, 99, 0, 104, 2, 99]);
    assert_eq!(pos.output(), &[2]);
}

#[test]
fn compare_with_input_program() {
    // Outputs 1 if the input equals 8, else 0.
    let code = [3, 9, 8, 9, 10, 9, 4, 9, 99, -1, 8];
    for (input, expected) in [(8, 1), (7, 0)] {
        let mut computer = Computer::new(&code, vec![input]);
        computer.run().unwrap();
        assert_eq!(computer.output(), &[expected]);
    }
}

#[test]
fn errors_of_each_kind() {
    let mut fault = Computer::new(&[1, 100, 0, 0, 99], vec![]);
    assert_eq!(fault.run().unwrap_err().kind, ExecErrorKind::MemoryFault);
    let mut past_end = Computer::new(&[1, 0, 0], vec![]);
    assert_eq!(past_end.run().unwrap_err().kind, ExecErrorKind::MemoryFault);
    let mut overflow = Computer::new(&[1102, 65536, 65536, 0, 99], vec![]);
    assert_eq!(overflow.run().unwrap_err().kind, ExecErrorKind::Overflow);
    assert_eq!(overflow.memory(), &[1102, 65536, 65536, 0, 99]);
    let mut starved = Computer::new(&[3, 0, 99], vec![]);
    assert_eq!(starved.run().unwrap_err().kind, ExecErrorKind::NoInput);
    let mut negative_jump = Computer::new(&[1105, 1, -1, 99], vec![]);
    assert_eq!(negative_jump.run().unwrap_err().kind, ExecErrorKind::MemoryFault);
}

#[test]
fn input_is_consumed_in_order() {
    let mut computer = Computer::new(&[3, 0, 3, 1, 4, 1, 4, 0, 99], vec![10]);
    computer.push_input(20);
    computer.run().unwrap();
    assert_eq!(computer.output(), &[20, 10]);
}

#[test]
fn parse_code_reads_lists() {
    assert_eq!(parse_code("1,0,0,0,99\n"), Ok(vec![1, 0, 0, 0, 99]));
    assert_eq!(parse_code("  3,-4, +5 ".trim_end()), Err(ParseCodeError));
    assert_eq!(parse_code(" 3,-4,+5\r\n"), Ok(vec![3, -4, 5]));
    assert_eq!(parse_code("-2147483648,2147483647"), Ok(vec![i32::MIN, i32::MAX]));
    assert_eq!(parse_code("2147483648"), Err(ParseCodeError));
    assert_eq!(parse_code("1,,2"), Err(ParseCodeError));
    assert_eq!(parse_code("1,a"), Err(ParseCodeError));
    assert_eq!(parse_code(""), Err(ParseCodeError));
    assert_eq!(parse_code("-"), Err(ParseCodeError));
    assert_eq!(parse_code("007"), Ok(vec![7]));
}

fn search_program() -> Vec<i32> {
    let mut code = vec![1, 0, 0, 0, 99];
    for i in 5..100 {
        code.push(i);
    }
    code
}

#[test]
fn run_with_noun_and_verb() {
    let code = search_program();
    assert_eq!(arith::run_with(&code, 5, 6), Ok(11));
    assert_eq!(arith::run_with(&[1, 0], 0, 0), Err(arith::ExecError));
}

#[test]
fn noun_verb_search() {
    let code = search_program();
    assert_eq!(arith::find_noun_verb(&code, 11), Ok(Some((0, 10))));
    assert_eq!(arith::find_noun_verb(&code, 1000), Ok(None));
    assert_eq!(arith::find_noun_verb(&[1, 0, 0, 0, 99], 1000), Err(arith::ExecError));
}

#[test]
fn add_multiply_step_rejects_terminate() {
    let mut memory = vec![99, 0, 0, 0];
    assert_eq!(
        arith::exec_op(arith::Operation::Terminate, &mut memory, 0),
        Err(arith::ExecError)
    );
    assert_eq!(memory, vec![99, 0, 0, 0]);
    let mut add = vec![1, 0, 0, 0, 99];
    assert_eq!(arith::exec_op(arith::Operation::Add, &mut add, 0), Ok(()));
    assert_eq!(add, vec![2, 0, 0, 0, 99]);
}

#[test]
fn parse_code_trims_unicode_whitespace() {
    assert_eq!(parse_code("1,2\u{a0}"), Ok(vec![1, 2]));
    assert_eq!(parse_code("\u{3000}\u{b}7,8\u{85}\u{2028}"), Ok(vec![7, 8]));
    assert_eq!(parse_code("1,\u{a0}2"), Err(ParseCodeError));
}
