//! The add-and-multiply machine: opcodes 1 (add), 2 (multiply) and 99
//! (terminate), every operand an address, the counter advancing by four.
use crate::intcode::{MachineState, STEP_LIMIT, decode, execute, fetched, run_to_end};
use vstd::prelude::*;

verus! {

#[derive(Clone, Copy, Debug, PartialEq, Eq, Structural)]
pub enum Operation {
    Add,
    Multiply,
    Terminate,
}

/// A word that is none of the three opcodes.
#[derive(Clone, Copy, Debug, PartialEq, Eq, Structural)]
pub struct ParseOpcodeError;

/// A run that met an unknown opcode, an address outside memory, a result
/// outside `i32`, or the step limit.
#[derive(Clone, Copy, Debug, PartialEq, Eq, Structural)]
pub struct ExecError;

pub open spec fn opcode_of(word: int) -> Option<Operation> {
    if word == 1 {
        Some(Operation::Add)
    } else if word == 2 {
        Some(Operation::Multiply)
    } else if word == 99 {
        Some(Operation::Terminate)
    } else {
        None
    }
}

/// The address held in cell `i`, if both the cell and the address lie in
/// memory.
pub open spec fn position(mem: Seq<i32>, i: int) -> Option<int> {
    if 0 <= i < mem.len() && 0 <= mem[i] < mem.len() {
        Some(mem[i] as int)
    } else {
        None
    }
}

/// Memory after the add or multiply instruction at `ptr`.
pub open spec fn step(mem: Seq<i32>, ptr: int, op: Operation) -> Option<Seq<i32>> {
    if op == Operation::Terminate {
        None
    } else {
        match (position(mem, ptr + 1), position(mem, ptr + 2), position(mem, ptr + 3)) {
            (Some(a), Some(b), Some(d)) => {
                let v = if op == Operation::Add {
                    mem[a] + mem[b]
                } else {
                    mem[a] * mem[b]
                };
                if i32::MIN <= v <= i32::MAX {
                    Some(mem.update(d, v as i32))
                } else {
                    None
                }
            },
            _ => None,
        }
    }
}

/// Runs from `ptr` until opcode 99, executing at most `fuel` instructions;
/// the memory returned on an error is the one before the failing step.
pub open spec fn evaluate(mem: Seq<i32>, ptr: int, fuel: nat) -> (Seq<i32>, Result<(), ExecError>)
    decreases fuel,
{
    if !(0 <= ptr < mem.len()) {
        (mem, Err(ExecError))
    } else {
        match opcode_of(mem[ptr] as int) {
            None => (mem, Err(ExecError)),
            Some(op) => if op == Operation::Terminate {
                (mem, Ok(()))
            } else if fuel == 0 {
                (mem, Err(ExecError))
            } else {
                match step(mem, ptr, op) {
                    None => (mem, Err(ExecError)),
                    Some(m) => evaluate(m, ptr + 4, (fuel - 1) as nat),
                }
            },
        }
    }
}

impl Operation {
    pub fn from_opcode(opcode: i32) -> (r: Result<Operation, ParseOpcodeError>)
        ensures
            r == (match opcode_of(opcode as int) {
                Some(op) => Ok(op),
                None => Err(ParseOpcodeError),
            }),
    {
        match opcode {
            1 => Ok(Operation::Add),
            2 => Ok(Operation::Multiply),
            99 => Ok(Operation::Terminate),
            _ => Err(ParseOpcodeError),
        }
    }
}

/// The address held in cell `i`.
fn load_position(code: &Vec<i32>, i: usize) -> (r: Option<usize>)
    ensures
        match r {
            Some(a) => position(code@, i as int) == Some(a as int),
            None => position(code@, i as int) is None,
        },
{
    if i < code.len() && code[i] >= 0 && (code[i] as usize) < code.len() {
        Some(code[i] as usize)
    } else {
        None
    }
}

/// Executes the add or multiply instruction at `ptr`; memory is unchanged
/// on an error. Terminate is no instruction to execute: it fails.
pub fn exec_op(op: Operation, code: &mut Vec<i32>, ptr: usize) -> (r: Result<(), ExecError>)
    ensures
        match step(old(code)@, ptr as int, op) {
            Some(m) => r is Ok && final(code)@ == m,
            None => r is Err && final(code)@ == old(code)@,
        },
{
    if op == Operation::Terminate || ptr >= code.len() {
        return Err(ExecError);
    }
    let fst_pos = match load_position(code, ptr + 1) {
        Some(a) => a,
        None => return Err(ExecError),
    };
    let snd_pos = match load_position(code, ptr + 2) {
        Some(a) => a,
        None => return Err(ExecError),
    };
    let dest = match load_position(code, ptr + 3) {
        Some(a) => a,
        None => return Err(ExecError),
    };
    let a = code[fst_pos] as i64;
    let b = code[snd_pos] as i64;
    let v: i64 = match op {
        Operation::Add => a + b,
        _ => {
            assert(-0x4000_0000_0000_0000 <= a * b <= 0x4000_0000_0000_0000) by (nonlinear_arith)
                requires
                    -0x8000_0000 <= a <= 0x7fff_ffff,
                    -0x8000_0000 <= b <= 0x7fff_ffff,
            ;
            a * b
        },
    };
    if v < i32::MIN as i64 || v > i32::MAX as i64 {
        return Err(ExecError);
    }
    code.set(dest, v as i32);
    Ok(())
}

/// Runs the program in `code` from `ptr` until opcode 99.
pub fn exec_code(code: &mut Vec<i32>, ptr: usize) -> (r: Result<(), ExecError>)
    ensures
        (final(code)@, r) == evaluate(old(code)@, ptr as int, STEP_LIMIT as nat),
{
    let mut pc = ptr;
    let mut steps: u64 = 0;
    loop
        invariant
            steps <= STEP_LIMIT,
            evaluate(code@, pc as int, (STEP_LIMIT - steps) as nat) == evaluate(
                old(code)@,
                ptr as int,
                STEP_LIMIT as nat,
            ),
        decreases STEP_LIMIT - steps,
    {
        if pc >= code.len() {
            return Err(ExecError);
        }
        let op = match Operation::from_opcode(code[pc]) {
            Ok(op) => op,
            Err(_) => return Err(ExecError),
        };
        if op == Operation::Terminate {
            return Ok(());
        }
        if steps == STEP_LIMIT {
            return Err(ExecError);
        }
        match exec_op(op, code, pc) {
            Ok(()) => {},
            Err(e) => return Err(e),
        }
        pc = pc + 4;
        steps = steps + 1;
    }
}

proof fn lemma_evaluate_keeps_length(mem: Seq<i32>, ptr: int, fuel: nat)
    ensures
        evaluate(mem, ptr, fuel).0.len() == mem.len(),
    decreases fuel,
{
    if 0 <= ptr < mem.len() && fuel > 0 {
        match opcode_of(mem[ptr] as int) {
            Some(op) => {
                if op != Operation::Terminate {
                    match step(mem, ptr, op) {
                        Some(m) => lemma_evaluate_keeps_length(m, ptr + 4, (fuel - 1) as nat),
                        None => {},
                    }
                }
            },
            None => {},
        }
    }
}

/// Cell 0 after running `code` with `noun` in cell 1 and `verb` in cell 2.
pub open spec fn output_of(code: Seq<i32>, noun: i32, verb: i32) -> Result<i32, ExecError> {
    if code.len() < 3 {
        Err(ExecError)
    } else {
        let (m, r) = evaluate(code.update(1, noun).update(2, verb), 0, STEP_LIMIT as nat);
        match r {
            Ok(_) => Ok(m[0]),
            Err(e) => Err(e),
        }
    }
}

/// Runs `code` with `noun` in cell 1 and `verb` in cell 2 and returns cell 0.
pub fn run_with(code: &[i32], noun: i32, verb: i32) -> (r: Result<i32, ExecError>)
    ensures
        r == output_of(code@, noun, verb),
{
    if code.len() < 3 {
        return Err(ExecError);
    }
    let mut memory: Vec<i32> = Vec::new();
    let mut i: usize = 0;
    while i < code.len()
        invariant
            i <= code@.len(),
            memory@ == code@.subrange(0, i as int),
        decreases code@.len() - i,
    {
        memory.push(code[i]);
        i = i + 1;
    }
    assert(memory@ =~= code@);
    memory.set(1, noun);
    memory.set(2, verb);
    proof {
        lemma_evaluate_keeps_length(memory@, 0, STEP_LIMIT as nat);
    }
    match exec_code(&mut memory, 0) {
        Ok(()) => Ok(memory[0]),
        Err(e) => Err(e),
    }
}

/// The first pair (noun, verb), nouns and then verbs counting up from
/// 0 to 99 and starting with pair number `k`, whose run leaves `target`
/// in cell 0; the first run that fails stops the search.
pub open spec fn search_from(code: Seq<i32>, target: i32, k: nat) -> Result<
    Option<(i32, i32)>,
    ExecError,
>
    decreases 10000 - k,
{
    if k >= 10000 {
        Ok(None)
    } else {
        let noun = (k / 100) as i32;
        let verb = (k % 100) as i32;
        match output_of(code, noun, verb) {
            Err(e) => Err(e),
            Ok(v) => if v == target {
                Ok(Some((noun, verb)))
            } else {
                search_from(code, target, k + 1)
            },
        }
    }
}

/// Finds the noun and verb, each from 0 to 99, that make `code` leave
/// `target` in cell 0.
pub fn find_noun_verb(code: &[i32], target: i32) -> (r: Result<Option<(i32, i32)>, ExecError>)
    ensures
        r == search_from(code@, target, 0),
{
    let mut k: u32 = 0;
    while k < 10000
        invariant
            k <= 10000,
            search_from(code@, target, k as nat) == search_from(code@, target, 0),
        decreases 10000 - k,
    {
        let noun = (k / 100) as i32;
        let verb = (k % 100) as i32;
        match run_with(code, noun, verb) {
            Err(e) => return Err(e),
            Ok(v) => {
                if v == target {
                    return Ok(Some((noun, verb)));
                }
            },
        }
        k = k + 1;
    }
    Ok(None)
}

/// A program that the add-and-multiply machine runs to its end leaves the
/// same memory when the full machine runs it with the same step allowance:
/// on position-mode add and multiply instructions the two machines agree.
pub proof fn lemma_add_multiply_agree(
    mem: Seq<i32>,
    ptr: int,
    input: Seq<i32>,
    output: Seq<i32>,
    fuel: nat,
)
    requires
        evaluate(mem, ptr, fuel).1 is Ok,
    ensures
        ({
            let r = run_to_end(MachineState { memory: mem, ptr, input, output }, fuel);
            &&& r.1 is Ok
            &&& r.0.memory == evaluate(mem, ptr, fuel).0
            &&& r.0.input == input
            &&& r.0.output == output
        }),
    decreases fuel,
{
    let s = MachineState { memory: mem, ptr, input, output };
    let w = mem[ptr] as int;
    let op = opcode_of(w)->Some_0;
    if op == Operation::Terminate {
        assert(decode(99) == Some(crate::intcode::Operation::Terminate));
    } else {
        assert(decode(1) == Some(crate::intcode::Operation::Add { fst_mode: crate::intcode::ParameterMode::Position, snd_mode: crate::intcode::ParameterMode::Position }));
        assert(decode(2) == Some(crate::intcode::Operation::Multiply { fst_mode: crate::intcode::ParameterMode::Position, snd_mode: crate::intcode::ParameterMode::Position }));
        let m = step(mem, ptr, op)->Some_0;
        let t = MachineState { memory: m, ptr: ptr + 4, input, output };
        assert(execute(s, fetched(s)->Ok_0) == Ok::<MachineState, crate::intcode::ExecError>(t));
        lemma_add_multiply_agree(m, ptr + 4, input, output, (fuel - 1) as nat);
    }
}

/// A program of position-mode add and multiply instructions that the
/// add-and-multiply machine runs from cell 0 to opcode 99 within the step
/// limit: a fresh machine on it runs to completion with that same memory,
/// its input untouched and no output.
pub proof fn lemma_add_multiply_program_runs(code: Seq<i32>, input: Seq<i32>)
    requires
        evaluate(code, 0, STEP_LIMIT as nat).1 is Ok,
    ensures
        ({
            let r = run_to_end(
                MachineState { memory: code, ptr: 0, input, output: Seq::empty() },
                STEP_LIMIT as nat,
            );
            &&& r.1 is Ok
            &&& r.0.memory == evaluate(code, 0, STEP_LIMIT as nat).0
            &&& r.0.input == input
            &&& r.0.output == Seq::<i32>::empty()
        }),
{
    lemma_add_multiply_agree(code, 0, input, Seq::empty(), STEP_LIMIT as nat);
}

} // verus!
