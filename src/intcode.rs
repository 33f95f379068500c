use std::collections::VecDeque;
use crate::text::{i32_list, parse_i32_list};
use vstd::prelude::*;

verus! {

/// How an operand's raw word is turned into a value.
#[derive(Clone, Copy, Debug, PartialEq, Eq, Structural)]
pub enum ParameterMode {
    /// The raw word is an address; the value is the memory cell it names.
    Position,
    /// The raw word is the value itself.
    Immediate,
}

/// A decoded instruction, with the addressing modes of its value operands.
#[derive(Clone, Copy, Debug, PartialEq, Eq, Structural)]
pub enum Operation {
    Add { fst_mode: ParameterMode, snd_mode: ParameterMode },
    Multiply { fst_mode: ParameterMode, snd_mode: ParameterMode },
    Input,
    Output(ParameterMode),
    JumpIfTrue { fst_mode: ParameterMode, snd_mode: ParameterMode },
    JumpIfFalse { fst_mode: ParameterMode, snd_mode: ParameterMode },
    LessThan { fst_mode: ParameterMode, snd_mode: ParameterMode },
    Equals { fst_mode: ParameterMode, snd_mode: ParameterMode },
    Terminate,
}

/// An instruction word that names no operation, or carries a mode digit
/// other than 0 or 1.
#[derive(Clone, Copy, Debug, PartialEq, Eq, Structural)]
pub struct ParseOperationError;

/// The mode that a single mode digit selects.
pub open spec fn mode_of_digit(d: int) -> Option<ParameterMode> {
    if d == 0 {
        Some(ParameterMode::Position)
    } else if d == 1 {
        Some(ParameterMode::Immediate)
    } else {
        None
    }
}

/// Every decimal digit of `n` is 0 or 1.
pub open spec fn binary_digits(n: int) -> bool
    decreases n,
{
    if n <= 0 {
        true
    } else {
        n % 10 <= 1 && binary_digits(n / 10)
    }
}

/// The mode that a mode digit known to be 0 or 1 selects.
pub open spec fn mode_of_bit(d: int) -> ParameterMode {
    if d == 1 {
        ParameterMode::Immediate
    } else {
        ParameterMode::Position
    }
}

/// What an instruction word decodes to: the two low decimal digits select the
/// operation, each higher digit is the mode of one operand (the lowest of them
/// for the first operand), and every such digit must be 0 or 1.
pub open spec fn decode(word: int) -> Option<Operation> {
    if word < 0 || !binary_digits(word / 100) {
        None
    } else {
        let fst_mode = mode_of_bit(word / 100 % 10);
        let snd_mode = mode_of_bit(word / 1000 % 10);
        let opcode = word % 100;
        if opcode == 1 {
            Some(Operation::Add { fst_mode, snd_mode })
        } else if opcode == 2 {
            Some(Operation::Multiply { fst_mode, snd_mode })
        } else if opcode == 3 {
            Some(Operation::Input)
        } else if opcode == 4 {
            Some(Operation::Output(fst_mode))
        } else if opcode == 5 {
            Some(Operation::JumpIfTrue { fst_mode, snd_mode })
        } else if opcode == 6 {
            Some(Operation::JumpIfFalse { fst_mode, snd_mode })
        } else if opcode == 7 {
            Some(Operation::LessThan { fst_mode, snd_mode })
        } else if opcode == 8 {
            Some(Operation::Equals { fst_mode, snd_mode })
        } else if opcode == 99 {
            Some(Operation::Terminate)
        } else {
            None
        }
    }
}

/// `decode` in the shape of the decoder's result.
pub open spec fn decode_result(word: int) -> Result<Operation, ParseOperationError> {
    match decode(word) {
        Some(op) => Ok(op),
        None => Err(ParseOperationError),
    }
}

impl ParameterMode {
    /// The mode that the digit `d` selects.
    pub fn from_digit(d: i32) -> (r: Result<ParameterMode, ParseOperationError>)
        ensures
            r == (match mode_of_digit(d as int) {
                Some(m) => Ok(m),
                None => Err(ParseOperationError),
            }),
    {
        if d == 0 {
            Ok(ParameterMode::Position)
        } else if d == 1 {
            Ok(ParameterMode::Immediate)
        } else {
            Err(ParseOperationError)
        }
    }
}

impl Operation {
    /// The operation that `opcode` names, given the modes of its first two
    /// operands.
    fn from_opcode(opcode: i32, fst_mode: ParameterMode, snd_mode: ParameterMode) -> (r: Result<
        Operation,
        ParseOperationError,
    >)
        ensures
            r == (if opcode == 1 {
                Ok(Operation::Add { fst_mode, snd_mode })
            } else if opcode == 2 {
                Ok(Operation::Multiply { fst_mode, snd_mode })
            } else if opcode == 3 {
                Ok(Operation::Input)
            } else if opcode == 4 {
                Ok(Operation::Output(fst_mode))
            } else if opcode == 5 {
                Ok(Operation::JumpIfTrue { fst_mode, snd_mode })
            } else if opcode == 6 {
                Ok(Operation::JumpIfFalse { fst_mode, snd_mode })
            } else if opcode == 7 {
                Ok(Operation::LessThan { fst_mode, snd_mode })
            } else if opcode == 8 {
                Ok(Operation::Equals { fst_mode, snd_mode })
            } else if opcode == 99 {
                Ok(Operation::Terminate)
            } else {
                Err(ParseOperationError)
            }),
    {
        match opcode {
            1 => Ok(Operation::Add { fst_mode, snd_mode }),
            2 => Ok(Operation::Multiply { fst_mode, snd_mode }),
            3 => Ok(Operation::Input),
            4 => Ok(Operation::Output(fst_mode)),
            5 => Ok(Operation::JumpIfTrue { fst_mode, snd_mode }),
            6 => Ok(Operation::JumpIfFalse { fst_mode, snd_mode }),
            7 => Ok(Operation::LessThan { fst_mode, snd_mode }),
            8 => Ok(Operation::Equals { fst_mode, snd_mode }),
            99 => Ok(Operation::Terminate),
            _ => Err(ParseOperationError),
        }
    }

    /// Decodes an instruction word.
    pub fn from_integer(integer: i32) -> (r: Result<Operation, ParseOperationError>)
        ensures
            r == decode_result(integer as int),
    {
        if integer < 0 {
            return Err(ParseOperationError);
        }
        let modes: i32 = integer / 100;
        let mut rest: i32 = modes;
        while rest > 0
            invariant
                integer >= 0,
                modes == integer / 100,
                rest >= 0,
                binary_digits(modes as int) == binary_digits(rest as int),
            decreases rest,
        {
            if ParameterMode::from_digit(rest % 10).is_err() {
                assert(!binary_digits(rest as int));
                return Err(ParseOperationError);
            }
            rest = rest / 10;
        }
        let fst_mode = if modes % 10 == 1 {
            ParameterMode::Immediate
        } else {
            ParameterMode::Position
        };
        let snd_mode = if modes / 10 % 10 == 1 {
            ParameterMode::Immediate
        } else {
            ParameterMode::Position
        };
        Operation::from_opcode(integer % 100, fst_mode, snd_mode)
    }
}

/// Program text that is not a comma-separated list of `i32`s.
#[derive(Clone, Copy, Debug, PartialEq, Eq, Structural)]
pub struct ParseCodeError;

/// Reads a program: base-10 `i32`s separated by commas, with any
/// whitespace before and after the list.
pub fn parse_code(text: &str) -> (r: Result<Vec<i32>, ParseCodeError>)
    ensures
        match i32_list(text@) {
            Some(v) => r matches Ok(w) && w@ == v,
            None => r == Err::<Vec<i32>, ParseCodeError>(ParseCodeError),
        },
{
    match parse_i32_list(text) {
        Some(v) => Ok(v),
        None => Err(ParseCodeError),
    }
}

/// Why a run stopped with an error.
#[derive(Clone, Copy, Debug, PartialEq, Eq, Structural)]
pub enum ExecErrorKind {
    /// The word at the program counter is no instruction.
    Decode,
    /// The program counter, an operand cell, or an address operand lies
    /// outside memory.
    MemoryFault,
    /// A computed value does not fit in an `i32`.
    Overflow,
    /// An input instruction found the input queue empty.
    NoInput,
    /// The run executed `STEP_LIMIT` instructions without halting.
    StepLimit,
    /// A terminate instruction was handed to execution; the run loops stop
    /// on it instead.
    Terminated,
}

/// A fatal error of a run.
#[derive(Clone, Copy, Debug, PartialEq, Eq, Structural)]
pub struct ExecError {
    pub kind: ExecErrorKind,
}

/// Why a resumable run stopped without error.
#[derive(Clone, Copy, Debug, PartialEq, Eq, Structural)]
pub enum HaltReason {
    /// A terminate instruction was reached.
    Terminate,
    /// An input instruction is pending and the input queue is empty.
    Input,
}

/// The most instructions that one run executes.
pub const STEP_LIMIT: u64 = 0xffff_ffff_ffff_ffff;

/// The abstract state of a machine.
pub struct MachineState {
    pub memory: Seq<i32>,
    pub ptr: int,
    pub input: Seq<i32>,
    pub output: Seq<i32>,
}

pub open spec fn fault<T>(kind: ExecErrorKind) -> Result<T, ExecError> {
    Err(ExecError { kind })
}

/// The raw word `k` cells after the program counter, if it lies in memory.
pub open spec fn raw_word(s: MachineState, k: int) -> Option<i32> {
    if 0 <= s.ptr + k < s.memory.len() {
        Some(s.memory[s.ptr + k])
    } else {
        None
    }
}

/// The memory cell that the raw word `k` cells after the counter names.
pub open spec fn address_of(s: MachineState, k: int) -> Option<int> {
    match raw_word(s, k) {
        Some(w) => if 0 <= w < s.memory.len() {
            Some(w as int)
        } else {
            None
        },
        None => None,
    }
}

/// The value of the `k`-th operand under `mode`.
pub open spec fn operand_value(s: MachineState, k: int, mode: ParameterMode) -> Option<i32> {
    match mode {
        ParameterMode::Immediate => raw_word(s, k),
        ParameterMode::Position => match address_of(s, k) {
            Some(a) => Some(s.memory[a]),
            None => None,
        },
    }
}

/// The value that a two-operand instruction stores.
pub open spec fn combine(op: Operation, a: int, b: int) -> int {
    match op {
        Operation::Add { .. } => a + b,
        Operation::Multiply { .. } => a * b,
        Operation::LessThan { .. } => if a < b {
            1
        } else {
            0
        },
        _ => if a == b {
            1
        } else {
            0
        },
    }
}

pub open spec fn fits_i32(v: int) -> bool {
    i32::MIN <= v <= i32::MAX
}

/// Add, Multiply, LessThan and Equals: combine two operands, store the
/// result at the third operand's address, advance by four.
pub open spec fn execute_binary(
    s: MachineState,
    op: Operation,
    fst_mode: ParameterMode,
    snd_mode: ParameterMode,
) -> Result<MachineState, ExecError> {
    match (operand_value(s, 1, fst_mode), operand_value(s, 2, snd_mode), address_of(s, 3)) {
        (Some(a), Some(b), Some(d)) => {
            let v = combine(op, a as int, b as int);
            if fits_i32(v) {
                Ok(MachineState { memory: s.memory.update(d, v as i32), ptr: s.ptr + 4, ..s })
            } else {
                fault(ExecErrorKind::Overflow)
            }
        },
        _ => fault(ExecErrorKind::MemoryFault),
    }
}

/// JumpIfTrue (`on_nonzero`) and JumpIfFalse: when the condition operand is
/// nonzero (zero), the counter becomes the raw target word, else it advances
/// by three.
pub open spec fn execute_jump(s: MachineState, fst_mode: ParameterMode, on_nonzero: bool) -> Result<
    MachineState,
    ExecError,
> {
    match (operand_value(s, 1, fst_mode), raw_word(s, 2)) {
        (Some(c), Some(t)) => if (c != 0) == on_nonzero {
            if t >= 0 {
                Ok(MachineState { ptr: t as int, ..s })
            } else {
                fault(ExecErrorKind::MemoryFault)
            }
        } else {
            Ok(MachineState { ptr: s.ptr + 3, ..s })
        },
        _ => fault(ExecErrorKind::MemoryFault),
    }
}

/// The effect of executing `op` at the program counter.
pub open spec fn execute(s: MachineState, op: Operation) -> Result<MachineState, ExecError> {
    match op {
        Operation::Add { fst_mode, snd_mode } => execute_binary(s, op, fst_mode, snd_mode),
        Operation::Multiply { fst_mode, snd_mode } => execute_binary(s, op, fst_mode, snd_mode),
        Operation::LessThan { fst_mode, snd_mode } => execute_binary(s, op, fst_mode, snd_mode),
        Operation::Equals { fst_mode, snd_mode } => execute_binary(s, op, fst_mode, snd_mode),
        Operation::Input => if s.input.len() == 0 {
            fault(ExecErrorKind::NoInput)
        } else {
            match address_of(s, 1) {
                Some(d) => Ok(
                    MachineState {
                        memory: s.memory.update(d, s.input[0]),
                        ptr: s.ptr + 2,
                        input: s.input.drop_first(),
                        ..s
                    },
                ),
                None => fault(ExecErrorKind::MemoryFault),
            }
        },
        Operation::Output(mode) => match operand_value(s, 1, mode) {
            Some(v) => Ok(MachineState { ptr: s.ptr + 2, output: s.output.push(v), ..s }),
            None => fault(ExecErrorKind::MemoryFault),
        },
        Operation::JumpIfTrue { fst_mode, .. } => execute_jump(s, fst_mode, true),
        Operation::JumpIfFalse { fst_mode, .. } => execute_jump(s, fst_mode, false),
        Operation::Terminate => fault(ExecErrorKind::Terminated),
    }
}

/// The instruction at the program counter.
pub open spec fn fetched(s: MachineState) -> Result<Operation, ExecError> {
    if 0 <= s.ptr < s.memory.len() {
        match decode(s.memory[s.ptr] as int) {
            Some(op) => Ok(op),
            None => fault(ExecErrorKind::Decode),
        }
    } else {
        fault(ExecErrorKind::MemoryFault)
    }
}

/// Runs until a terminate instruction, executing at most `fuel`
/// instructions. On an error the state is the one before the failing step.
pub open spec fn run_to_end(s: MachineState, fuel: nat) -> (MachineState, Result<(), ExecError>)
    decreases fuel,
{
    match fetched(s) {
        Err(e) => (s, Err(e)),
        Ok(op) => if op == Operation::Terminate {
            (s, Ok(()))
        } else if fuel == 0 {
            (s, fault(ExecErrorKind::StepLimit))
        } else {
            match execute(s, op) {
                Err(e) => (s, Err(e)),
                Ok(t) => run_to_end(t, (fuel - 1) as nat),
            }
        },
    }
}

/// As `run_to_end`, but an input instruction that finds the queue empty
/// stops the run, with the counter left on it.
pub open spec fn run_until_blocked(s: MachineState, fuel: nat) -> (
    MachineState,
    Result<HaltReason, ExecError>,
)
    decreases fuel,
{
    match fetched(s) {
        Err(e) => (s, Err(e)),
        Ok(op) => if op == Operation::Terminate {
            (s, Ok(HaltReason::Terminate))
        } else if op == Operation::Input && s.input.len() == 0 {
            (s, Ok(HaltReason::Input))
        } else if fuel == 0 {
            (s, fault(ExecErrorKind::StepLimit))
        } else {
            match execute(s, op) {
                Err(e) => (s, Err(e)),
                Ok(t) => run_until_blocked(t, (fuel - 1) as nat),
            }
        },
    }
}

/// `after` and `r` are what executing a step with outcome `res` leaves:
/// the new state on success, the unchanged state and the error otherwise.
pub open spec fn applied(
    before: MachineState,
    after: MachineState,
    r: Result<(), ExecError>,
    res: Result<MachineState, ExecError>,
) -> bool {
    match res {
        Ok(t) => r == Ok::<(), ExecError>(()) && after == t,
        Err(e) => r == Err::<(), ExecError>(e) && after == before,
    }
}

/// A machine: memory, program counter, input queue and output sequence.
pub struct Computer {
    memory: Vec<i32>,
    ptr: usize,
    input: VecDeque<i32>,
    output: Vec<i32>,
}

impl View for Computer {
    type V = MachineState;

    closed spec fn view(&self) -> MachineState {
        MachineState {
            memory: self.memory@,
            ptr: self.ptr as int,
            input: self.input@,
            output: self.output@,
        }
    }
}

impl Computer {
    /// A machine whose memory is a copy of `code`, with the counter at 0,
    /// `input` as its input queue and no output.
    pub fn new(code: &[i32], input: Vec<i32>) -> (r: Computer)
        ensures
            r@ == (MachineState { memory: code@, ptr: 0, input: input@, output: Seq::empty() }),
    {
        let mut memory: Vec<i32> = Vec::new();
        let mut i: usize = 0;
        while i < code.len()
            invariant
                i <= code@.len(),
                memory@ == code@.subrange(0, i as int),
            decreases code@.len() - i,
        {
            memory.push(code[i]);
            i += 1;
        }
        assert(memory@ =~= code@);
        let mut queue: VecDeque<i32> = VecDeque::new();
        let mut j: usize = 0;
        while j < input.len()
            invariant
                j <= input@.len(),
                queue@ == input@.subrange(0, j as int),
            decreases input@.len() - j,
        {
            queue.push_back(input[j]);
            j += 1;
        }
        assert(queue@ =~= input@);
        Computer { memory, ptr: 0, input: queue, output: Vec::new() }
    }

    /// The raw word `k` cells after the program counter.
    fn raw(&self, k: usize) -> (r: Option<i32>)
        ensures
            r == raw_word(self@, k as int),
    {
        if k < self.memory.len() && self.ptr < self.memory.len() - k {
            Some(self.memory[self.ptr + k])
        } else {
            None
        }
    }

    /// The cell that the raw word `k` cells after the counter names.
    fn address(&self, k: usize) -> (r: Option<usize>)
        ensures
            match r {
                Some(a) => address_of(self@, k as int) == Some(a as int),
                None => address_of(self@, k as int) is None,
            },
    {
        match self.raw(k) {
            Some(w) => if w >= 0 && (w as usize) < self.memory.len() {
                Some(w as usize)
            } else {
                None
            },
            None => None,
        }
    }

    /// The value of the `k`-th operand under `mode`.
    fn operand(&self, k: usize, mode: ParameterMode) -> (r: Option<i32>)
        ensures
            r == operand_value(self@, k as int, mode),
    {
        match mode {
            ParameterMode::Immediate => self.raw(k),
            ParameterMode::Position => match self.address(k) {
                Some(a) => Some(self.memory[a]),
                None => None,
            },
        }
    }

    /// The two operands and the destination of a two-operand instruction.
    fn binary_operands(&self, fst_mode: ParameterMode, snd_mode: ParameterMode) -> (r: Result<
        (i32, i32, usize),
        ExecError,
    >)
        ensures
            match (
                operand_value(self@, 1, fst_mode),
                operand_value(self@, 2, snd_mode),
                address_of(self@, 3),
            ) {
                (Some(a), Some(b), Some(d)) => r matches Ok((x, y, z)) && x == a && y == b && z
                    == d,
                _ => r == fault::<(i32, i32, usize)>(ExecErrorKind::MemoryFault),
            },
    {
        let a = match self.operand(1, fst_mode) {
            Some(a) => a,
            None => return Err(ExecError { kind: ExecErrorKind::MemoryFault }),
        };
        let b = match self.operand(2, snd_mode) {
            Some(b) => b,
            None => return Err(ExecError { kind: ExecErrorKind::MemoryFault }),
        };
        match self.address(3) {
            Some(d) => Ok((a, b, d)),
            None => Err(ExecError { kind: ExecErrorKind::MemoryFault }),
        }
    }

    /// Writes `v` at `dest` and advances the counter by `width`.
    fn store(&mut self, dest: usize, v: i32, width: usize)
        requires
            dest < old(self)@.memory.len(),
            old(self)@.ptr + width <= old(self)@.memory.len(),
        ensures
            final(self)@ == (MachineState {
                memory: old(self)@.memory.update(dest as int, v),
                ptr: old(self)@.ptr + width,
                ..old(self)@
            }),
    {
        let len = self.memory.len();
        self.memory.set(dest, v);
        self.ptr = self.ptr + width;
    }

    fn exec_add(&mut self, fst_mode: ParameterMode, snd_mode: ParameterMode) -> (r: Result<
        (),
        ExecError,
    >)
        ensures
            applied(old(self)@, final(self)@, r, execute(old(self)@, Operation::Add { fst_mode, snd_mode })),
    {
        let (a, b, dest) = match self.binary_operands(fst_mode, snd_mode) {
            Ok(t) => t,
            Err(e) => return Err(e),
        };
        let v: i64 = a as i64 + b as i64;
        if v < i32::MIN as i64 || v > i32::MAX as i64 {
            return Err(ExecError { kind: ExecErrorKind::Overflow });
        }
        self.store(dest, v as i32, 4);
        Ok(())
    }

    fn exec_multiply(&mut self, fst_mode: ParameterMode, snd_mode: ParameterMode) -> (r: Result<
        (),
        ExecError,
    >)
        ensures
            applied(old(self)@, final(self)@, r, execute(old(self)@, Operation::Multiply { fst_mode, snd_mode })),
    {
        let (a, b, dest) = match self.binary_operands(fst_mode, snd_mode) {
            Ok(t) => t,
            Err(e) => return Err(e),
        };
        assert(-0x4000_0000_0000_0000 <= a as int * b as int <= 0x4000_0000_0000_0000)
            by (nonlinear_arith)
            requires
                -0x8000_0000 <= a <= 0x7fff_ffff,
                -0x8000_0000 <= b <= 0x7fff_ffff,
        ;
        let v: i64 = a as i64 * b as i64;
        if v < i32::MIN as i64 || v > i32::MAX as i64 {
            return Err(ExecError { kind: ExecErrorKind::Overflow });
        }
        self.store(dest, v as i32, 4);
        Ok(())
    }

    fn exec_less_than(&mut self, fst_mode: ParameterMode, snd_mode: ParameterMode) -> (r: Result<
        (),
        ExecError,
    >)
        ensures
            applied(old(self)@, final(self)@, r, execute(old(self)@, Operation::LessThan { fst_mode, snd_mode })),
            r is Ok <==> (operand_value(old(self)@, 1, fst_mode) is Some && operand_value(
                old(self)@,
                2,
                snd_mode,
            ) is Some && address_of(old(self)@, 3) is Some),
            r is Ok ==> {
                let d = address_of(old(self)@, 3)->Some_0;
                &&& final(self)@.memory == old(self)@.memory.update(d, final(self)@.memory[d])
                &&& final(self)@.memory[d] == 0 || final(self)@.memory[d] == 1
            },
    {
        let (a, b, dest) = match self.binary_operands(fst_mode, snd_mode) {
            Ok(t) => t,
            Err(e) => return Err(e),
        };
        self.store(dest, if a < b { 1 } else { 0 }, 4);
        Ok(())
    }

    fn exec_equals(&mut self, fst_mode: ParameterMode, snd_mode: ParameterMode) -> (r: Result<
        (),
        ExecError,
    >)
        ensures
            applied(old(self)@, final(self)@, r, execute(old(self)@, Operation::Equals { fst_mode, snd_mode })),
            r is Ok <==> (operand_value(old(self)@, 1, fst_mode) is Some && operand_value(
                old(self)@,
                2,
                snd_mode,
            ) is Some && address_of(old(self)@, 3) is Some),
            r is Ok ==> {
                let d = address_of(old(self)@, 3)->Some_0;
                &&& final(self)@.memory == old(self)@.memory.update(d, final(self)@.memory[d])
                &&& final(self)@.memory[d] == 0 || final(self)@.memory[d] == 1
            },
    {
        let (a, b, dest) = match self.binary_operands(fst_mode, snd_mode) {
            Ok(t) => t,
            Err(e) => return Err(e),
        };
        self.store(dest, if a == b { 1 } else { 0 }, 4);
        Ok(())
    }

    /// Shared body of the two conditional jumps.
    fn exec_jump(&mut self, fst_mode: ParameterMode, on_nonzero: bool) -> (r: Result<(), ExecError>)
        ensures
            applied(old(self)@, final(self)@, r, execute_jump(old(self)@, fst_mode, on_nonzero)),
    {
        let value = match self.operand(1, fst_mode) {
            Some(v) => v,
            None => return Err(ExecError { kind: ExecErrorKind::MemoryFault }),
        };
        let target = match self.raw(2) {
            Some(t) => t,
            None => return Err(ExecError { kind: ExecErrorKind::MemoryFault }),
        };
        if (value != 0) == on_nonzero {
            if target < 0 {
                return Err(ExecError { kind: ExecErrorKind::MemoryFault });
            }
            self.ptr = target as usize;
        } else {
            let len = self.memory.len();
            self.ptr = self.ptr + 3;
        }
        Ok(())
    }

    fn exec_jump_if_true(&mut self, fst_mode: ParameterMode, snd_mode: ParameterMode) -> (r: Result<
        (),
        ExecError,
    >)
        ensures
            applied(old(self)@, final(self)@, r, execute(old(self)@, Operation::JumpIfTrue { fst_mode, snd_mode })),
    {
        self.exec_jump(fst_mode, true)
    }

    fn exec_jump_if_false(&mut self, fst_mode: ParameterMode, snd_mode: ParameterMode) -> (r: Result<
        (),
        ExecError,
    >)
        ensures
            applied(old(self)@, final(self)@, r, execute(old(self)@, Operation::JumpIfFalse { fst_mode, snd_mode })),
    {
        self.exec_jump(fst_mode, false)
    }

    fn exec_input(&mut self) -> (r: Result<(), ExecError>)
        ensures
            applied(old(self)@, final(self)@, r, execute(old(self)@, Operation::Input)),
    {
        if self.input.len() == 0 {
            return Err(ExecError { kind: ExecErrorKind::NoInput });
        }
        let dest = match self.address(1) {
            Some(d) => d,
            None => return Err(ExecError { kind: ExecErrorKind::MemoryFault }),
        };
        match self.input.pop_front() {
            Some(v) => {
                self.store(dest, v, 2);
                Ok(())
            },
            None => Err(ExecError { kind: ExecErrorKind::NoInput }),
        }
    }

    fn exec_output(&mut self, mode: ParameterMode) -> (r: Result<(), ExecError>)
        ensures
            applied(old(self)@, final(self)@, r, execute(old(self)@, Operation::Output(mode))),
    {
        match self.operand(1, mode) {
            Some(v) => {
                let len = self.memory.len();
                self.output.push(v);
                self.ptr = self.ptr + 2;
                Ok(())
            },
            None => Err(ExecError { kind: ExecErrorKind::MemoryFault }),
        }
    }

    /// Executes `op` as the instruction at the program counter.
    fn exec_op(&mut self, op: Operation) -> (r: Result<(), ExecError>)
        ensures
            applied(old(self)@, final(self)@, r, execute(old(self)@, op)),
    {
        match op {
            Operation::Add { fst_mode, snd_mode } => self.exec_add(fst_mode, snd_mode),
            Operation::Multiply { fst_mode, snd_mode } => self.exec_multiply(fst_mode, snd_mode),
            Operation::Input => self.exec_input(),
            Operation::Output(mode) => self.exec_output(mode),
            Operation::JumpIfTrue { fst_mode, snd_mode } => self.exec_jump_if_true(
                fst_mode,
                snd_mode,
            ),
            Operation::JumpIfFalse { fst_mode, snd_mode } => self.exec_jump_if_false(
                fst_mode,
                snd_mode,
            ),
            Operation::LessThan { fst_mode, snd_mode } => self.exec_less_than(fst_mode, snd_mode),
            Operation::Equals { fst_mode, snd_mode } => self.exec_equals(fst_mode, snd_mode),
            Operation::Terminate => Err(ExecError { kind: ExecErrorKind::Terminated }),
        }
    }

    /// Decodes the instruction at the program counter.
    fn fetch(&self) -> (r: Result<Operation, ExecError>)
        ensures
            r == fetched(self@),
    {
        if self.ptr < self.memory.len() {
            match Operation::from_integer(self.memory[self.ptr]) {
                Ok(op) => Ok(op),
                Err(_) => Err(ExecError { kind: ExecErrorKind::Decode }),
            }
        } else {
            Err(ExecError { kind: ExecErrorKind::MemoryFault })
        }
    }

    /// Runs until a terminate instruction. Fails on a decode error, a memory
    /// fault, an overflow, an input instruction with an empty queue, or after
    /// `STEP_LIMIT` instructions; the state is then the one before the
    /// failing instruction.
    pub fn run(&mut self) -> (r: Result<(), ExecError>)
        ensures
            (final(self)@, r) == run_to_end(old(self)@, STEP_LIMIT as nat),
    {
        let ghost start = self@;
        let mut steps: u64 = 0;
        loop
            invariant
                start == old(self)@,
                steps <= STEP_LIMIT,
                run_to_end(self@, (STEP_LIMIT - steps) as nat) == run_to_end(start, STEP_LIMIT as nat),
            decreases STEP_LIMIT - steps,
        {
            let op = match self.fetch() {
                Ok(op) => op,
                Err(e) => return Err(e),
            };
            if op == Operation::Terminate {
                return Ok(());
            }
            if steps == STEP_LIMIT {
                return Err(ExecError { kind: ExecErrorKind::StepLimit });
            }
            match self.exec_op(op) {
                Ok(()) => {},
                Err(e) => return Err(e),
            }
            steps = steps + 1;
        }
    }

    /// Runs until a terminate instruction, or until an input instruction
    /// finds the input queue empty; the counter then stays on that
    /// instruction, so that a later call resumes there.
    pub fn run_adv(&mut self) -> (r: Result<HaltReason, ExecError>)
        ensures
            (final(self)@, r) == run_until_blocked(old(self)@, STEP_LIMIT as nat),
    {
        let ghost start = self@;
        let mut steps: u64 = 0;
        loop
            invariant
                start == old(self)@,
                steps <= STEP_LIMIT,
                run_until_blocked(self@, (STEP_LIMIT - steps) as nat) == run_until_blocked(
                    start,
                    STEP_LIMIT as nat,
                ),
            decreases STEP_LIMIT - steps,
        {
            let op = match self.fetch() {
                Ok(op) => op,
                Err(e) => return Err(e),
            };
            if op == Operation::Terminate {
                return Ok(HaltReason::Terminate);
            }
            if op == Operation::Input && self.input.len() == 0 {
                return Ok(HaltReason::Input);
            }
            if steps == STEP_LIMIT {
                return Err(ExecError { kind: ExecErrorKind::StepLimit });
            }
            match self.exec_op(op) {
                Ok(()) => {},
                Err(e) => return Err(e),
            }
            steps = steps + 1;
        }
    }

    /// Appends `i` to the back of the input queue.
    pub fn push_input(&mut self, i: i32)
        ensures
            final(self)@ == (MachineState { input: old(self)@.input.push(i), ..old(self)@ }),
    {
        self.input.push_back(i)
    }

    /// The values output so far, in the order they were produced.
    pub fn output(&self) -> (r: &[i32])
        ensures
            r@ == self@.output,
    {
        self.output.as_slice()
    }

    /// Removes and returns the most recently produced output value.
    pub fn pop_output(&mut self) -> (r: Option<i32>)
        ensures
            old(self)@.output.len() == 0 ==> r is None && final(self)@ == old(self)@,
            old(self)@.output.len() > 0 ==> r == Some(old(self)@.output.last()) && final(self)@ == (
            MachineState { output: old(self)@.output.drop_last(), ..old(self)@ }),
    {
        self.output.pop()
    }

    /// The current memory.
    pub fn memory(&self) -> (r: &[i32])
        ensures
            r@ == self@.memory,
    {
        self.memory.as_slice()
    }

    /// The program counter.
    pub fn counter(&self) -> (r: usize)
        ensures
            r as int == self@.ptr,
    {
        self.ptr
    }
}

/// A word that does not decode stops either run at once, with the state
/// untouched.
pub proof fn lemma_decode_error_changes_nothing(s: MachineState, fuel: nat)
    requires
        0 <= s.ptr < s.memory.len(),
        decode(s.memory[s.ptr] as int) is None,
    ensures
        run_to_end(s, fuel) == (s, fault::<()>(ExecErrorKind::Decode)),
        run_until_blocked(s, fuel) == (s, fault::<HaltReason>(ExecErrorKind::Decode)),
{
}

/// Less-than and equals write 0 or 1 at their destination and change no
/// other cell, whatever their operands.
pub proof fn lemma_comparison_writes_bit(
    s: MachineState,
    fst_mode: ParameterMode,
    snd_mode: ParameterMode,
    less_than: bool,
)
    ensures
        ({
            let op = if less_than {
                Operation::LessThan { fst_mode, snd_mode }
            } else {
                Operation::Equals { fst_mode, snd_mode }
            };
            execute(s, op) matches Ok(t) ==> {
                let d = address_of(s, 3)->Some_0;
                &&& address_of(s, 3) is Some
                &&& t.memory == s.memory.update(d, t.memory[d])
                &&& t.memory[d] == 0 || t.memory[d] == 1
            }
        }),
{
}

/// A resumable run that meets an input instruction with an empty queue
/// stops on it and changes nothing.
pub proof fn lemma_starved_input_waits(s: MachineState, fuel: nat)
    requires
        fetched(s) == Ok::<Operation, ExecError>(Operation::Input),
        s.input.len() == 0,
    ensures
        run_until_blocked(s, fuel) == (s, Ok::<HaltReason, ExecError>(HaltReason::Input)),
{
}

/// The program that reads one value and outputs it: run with no input it
/// waits on its first instruction; with `v` pushed and resumed it
/// terminates having output exactly `v`.
pub proof fn lemma_echo_resumes(v: i32)
    ensures
        ({
            let s = MachineState {
                memory: seq![3, 0, 4, 0, 99],
                ptr: 0,
                input: Seq::empty(),
                output: Seq::empty(),
            };
            let resumed = run_until_blocked(
                MachineState { input: s.input.push(v), ..s },
                STEP_LIMIT as nat,
            );
            &&& run_until_blocked(s, STEP_LIMIT as nat) == (s, Ok::<HaltReason, ExecError>(
                HaltReason::Input,
            ))
            &&& resumed.1 == Ok::<HaltReason, ExecError>(HaltReason::Terminate)
            &&& resumed.0.output == seq![v]
        }),
{
    let s = MachineState {
        memory: seq![3, 0, 4, 0, 99],
        ptr: 0,
        input: Seq::empty(),
        output: Seq::empty(),
    };
    let s1 = MachineState { input: s.input.push(v), ..s };
    assert(decode(3) == Some(Operation::Input));
    assert(decode(4) == Some(Operation::Output(ParameterMode::Position)));
    assert(decode(99) == Some(Operation::Terminate));
    let s2 = MachineState { memory: seq![v, 0, 4, 0, 99], ptr: 2, input: Seq::empty(), output: Seq::empty() };
    assert(s1.input.drop_first() =~= Seq::<i32>::empty());
    assert(s1.memory.update(0, v) =~= s2.memory);
    assert(execute(s1, Operation::Input) == Ok::<MachineState, ExecError>(s2));
    let s3 = MachineState { ptr: 4, output: seq![v], ..s2 };
    assert(Seq::<i32>::empty().push(v) =~= seq![v]);
    assert(execute(s2, Operation::Output(ParameterMode::Position)) == Ok::<MachineState, ExecError>(s3));
    assert(run_until_blocked(s3, (STEP_LIMIT - 2) as nat) == (s3, Ok::<HaltReason, ExecError>(
        HaltReason::Terminate,
    )));
    assert(run_until_blocked(s2, (STEP_LIMIT - 1) as nat) == run_until_blocked(s3, (STEP_LIMIT - 2) as nat));
}

} // verus!
