use aoc19::amplifier::{
    best_feedback_signal, best_serial_signal, feedback_signal, max_serial_signal, run_feedback,
    serial_signal, AmplifierError,
};
use aoc19::intcode::{Computer, ExecErrorKind};

const SERIAL: [i32; 17] = [3, 15, 3, 16, 1002, 16, 10, 16, 1, 16, 15, 15, 4, 15, 99, 0, 0];

const FEEDBACK: [i32; 29] = [
    3, 26, 1001, 26, -4, 26, 3, 27, 1002, 27, 2, 27, 1, 27, 26, 27, 4, 27, 1001, 28, -1, 28, 1005,
    28, 6, 99, 0, 0, 5,
];

#[test]
fn feedback_loop_of_two_echo_machines() {
    let code = [3, 0, 4, 0, 99];
    let machines = vec![Computer::new(&code, vec![]), Computer::new(&code, vec![])];
    assert_eq!(run_feedback(machines, 5), Ok(5));
}

#[test]
fn feedback_loop_of_no_machines_passes_signal() {
    assert_eq!(run_feedback(vec![], 9), Ok(9));
}

#[test]
fn serial_chain_signal() {
    assert_eq!(serial_signal(&SERIAL, &[4, 3, 2, 1, 0]), Ok(43210));
    assert_eq!(serial_signal(&SERIAL, &[]), Ok(0));
}

#[test]
fn best_serial_over_all_orderings() {
    assert_eq!(best_serial_signal(&SERIAL, &vec![0, 1, 2, 3, 4]), Ok(43210));
    let code = [
        3, 23, 3, 24, 1002, 24, 10, 24, 1002, 23, -1, 23, 101, 5, 23, 23, 1, 24, 23, 23, 4, 23,
        99, 0, 0,
    ];
    assert_eq!(best_serial_signal(&code, &vec![0, 1, 2, 3, 4]), Ok(54321));
}

#[test]
fn max_serial_over_given_orderings() {
    let orderings = vec![vec![0, 1, 2, 3, 4], vec![4, 3, 2, 1, 0]];
    assert_eq!(max_serial_signal(&SERIAL, &orderings), Ok(43210));
    assert_eq!(max_serial_signal(&SERIAL, &vec![]), Ok(i32::MIN));
}

#[test]
fn feedback_chain_signal() {
    assert_eq!(feedback_signal(&FEEDBACK, &[9, 8, 7, 6, 5]), Ok(139629729));
}

#[test]
fn best_feedback_over_all_orderings() {
    assert_eq!(best_feedback_signal(&FEEDBACK, &vec![5, 6, 7, 8, 9]), Ok(139629729));
}

#[test]
fn chain_errors() {
    assert_eq!(serial_signal(&[3, 0, 3, 0, 99], &[1]), Err(AmplifierError::NoOutput));
    assert!(matches!(
        serial_signal(&[3, 0, 3, 0, 3, 0, 99], &[1]),
        Err(AmplifierError::Machine(e)) if e.kind == ExecErrorKind::NoInput
    ));
    assert!(matches!(
        feedback_signal(&[9], &[1]),
        Err(AmplifierError::Machine(e)) if e.kind == ExecErrorKind::Decode
    ));
}
