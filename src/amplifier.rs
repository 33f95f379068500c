//! Chains of machines that all run one program: in series, each started with
//! its phase and the signal of the one before, and in a feedback loop, where
//! the machines take turns until the last of a round terminates.
use crate::intcode::{
    Computer, ExecError, HaltReason, MachineState, STEP_LIMIT, run_to_end, run_until_blocked,
};
use itertools::Itertools;
use vstd::prelude::*;

verus! {

/// Why a chain of machines produced no signal.
#[derive(Clone, Copy, Debug, PartialEq, Eq, Structural)]
pub enum AmplifierError {
    /// A machine stopped with an error.
    Machine(ExecError),
    /// A machine stopped without output to pass on.
    NoOutput,
    /// The loop went `STEP_LIMIT` turns without finishing.
    TurnLimit,
}

/// A fresh machine on `code` with `input` queued.
pub open spec fn fresh(code: Seq<i32>, input: Seq<i32>) -> MachineState {
    MachineState { memory: code, ptr: 0, input, output: Seq::empty() }
}

/// The signal that leaves a series of machines on `code`, one per phase,
/// when `signal` enters the first: each machine gets its phase and the
/// incoming signal as input, runs to its end, and passes on its first output.
pub open spec fn serial_from(code: Seq<i32>, phases: Seq<i32>, signal: i32) -> Result<
    i32,
    AmplifierError,
>
    decreases phases.len(),
{
    if phases.len() == 0 {
        Ok(signal)
    } else {
        let (t, r) = run_to_end(fresh(code, seq![phases[0], signal]), STEP_LIMIT as nat);
        match r {
            Err(e) => Err(AmplifierError::Machine(e)),
            Ok(_) => if t.output.len() == 0 {
                Err(AmplifierError::NoOutput)
            } else {
                serial_from(code, phases.drop_first(), t.output[0])
            },
        }
    }
}

/// A feedback loop over the machines `ms`, the next to run first, where
/// `turn` machines of the current round have run: the next machine gets
/// `signal` as input, runs until it blocks or terminates, and its latest
/// output becomes the signal; the loop ends with that signal when the last
/// machine of a round has terminated. At most `fuel` turns are taken.
pub open spec fn feedback(ms: Seq<MachineState>, turn: nat, signal: i32, fuel: nat) -> Result<
    i32,
    AmplifierError,
>
    decreases fuel,
{
    if ms.len() == 0 {
        Ok(signal)
    } else if fuel == 0 {
        Err(AmplifierError::TurnLimit)
    } else {
        let m = ms[0];
        let (t, r) = run_until_blocked(
            MachineState { input: m.input.push(signal), ..m },
            STEP_LIMIT as nat,
        );
        match r {
            Err(e) => Err(AmplifierError::Machine(e)),
            Ok(h) => if t.output.len() == 0 {
                Err(AmplifierError::NoOutput)
            } else {
                let out = t.output.last();
                let rest = ms.drop_first().push(MachineState { output: t.output.drop_last(), ..t });
                if turn + 1 == ms.len() {
                    if h == HaltReason::Terminate {
                        Ok(out)
                    } else {
                        feedback(rest, 0, out, (fuel - 1) as nat)
                    }
                } else {
                    feedback(rest, turn + 1, out, (fuel - 1) as nat)
                }
            },
        }
    }
}

/// Fresh machines on `code`, each with its phase queued.
pub open spec fn phased(code: Seq<i32>, phases: Seq<i32>) -> Seq<MachineState> {
    phases.map_values(|p: i32| fresh(code, seq![p]))
}

/// The largest serial signal, from 0, over the phase orderings `os`, against
/// `best`; the first error met, in order, otherwise.
pub open spec fn max_serial_from(code: Seq<i32>, os: Seq<Seq<i32>>, best: i32) -> Result<
    i32,
    AmplifierError,
>
    decreases os.len(),
{
    if os.len() == 0 {
        Ok(best)
    } else {
        match serial_from(code, os[0], 0) {
            Err(e) => Err(e),
            Ok(s) => max_serial_from(
                code,
                os.drop_first(),
                if s > best {
                    s
                } else {
                    best
                },
            ),
        }
    }
}

/// As `max_serial_from`, for the feedback loop.
pub open spec fn max_feedback_from(code: Seq<i32>, os: Seq<Seq<i32>>, best: i32) -> Result<
    i32,
    AmplifierError,
>
    decreases os.len(),
{
    if os.len() == 0 {
        Ok(best)
    } else {
        match feedback(phased(code, os[0]), 0, 0, STEP_LIMIT as nat) {
            Err(e) => Err(e),
            Ok(s) => max_feedback_from(
                code,
                os.drop_first(),
                if s > best {
                    s
                } else {
                    best
                },
            ),
        }
    }
}

/// Every ordering of a list of phases, in the order the permutation
/// iterator yields them.
pub uninterp spec fn orderings_of(phases: Seq<i32>) -> Seq<Seq<i32>>;

pub open spec fn views(vs: Seq<Vec<i32>>) -> Seq<Seq<i32>> {
    vs.map_values(|v: Vec<i32>| v@)
}

/// Relies on itertools::Itertools::permutations with `k` the number of
/// phases: every ordering of the phases, each as a vector.
#[verifier::external_body]
fn all_orderings(phases: &Vec<i32>) -> (r: Vec<Vec<i32>>)
    ensures
        views(r@) == orderings_of(phases@),
{
    phases.iter().copied().permutations(phases.len()).collect()
}

/// The signal that leaves the series of machines on `code`, one per phase,
/// when 0 enters the first.
pub fn serial_signal(code: &[i32], phases: &[i32]) -> (r: Result<i32, AmplifierError>)
    ensures
        r == serial_from(code@, phases@, 0),
{
    let mut signal: i32 = 0;
    let mut k: usize = 0;
    assert(phases@.skip(0) =~= phases@);
    while k < phases.len()
        invariant
            k <= phases@.len(),
            serial_from(code@, phases@.skip(k as int), signal) == serial_from(code@, phases@, 0),
        decreases phases@.len() - k,
    {
        assert(phases@.skip(k as int).drop_first() =~= phases@.skip(k + 1));
        let mut input: Vec<i32> = Vec::new();
        input.push(phases[k]);
        input.push(signal);
        assert(input@ =~= seq![phases@.skip(k as int)[0], signal]);
        let mut computer = Computer::new(code, input);
        match computer.run() {
            Ok(()) => {},
            Err(e) => return Err(AmplifierError::Machine(e)),
        }
        let out = computer.output();
        if out.len() == 0 {
            return Err(AmplifierError::NoOutput);
        }
        signal = out[0];
        k = k + 1;
    }
    assert(phases@.skip(k as int) =~= Seq::<i32>::empty());
    Ok(signal)
}

pub open spec fn machine_views(ms: Seq<Computer>) -> Seq<MachineState> {
    ms.map_values(|c: Computer| c@)
}

/// Runs the feedback loop over `machines`, the first to run first, with
/// `signal` entering the first.
pub fn run_feedback(machines: Vec<Computer>, signal: i32) -> (r: Result<i32, AmplifierError>)
    ensures
        r == feedback(machine_views(machines@), 0, signal, STEP_LIMIT as nat),
{
    let ghost goal = feedback(machine_views(machines@), 0, signal, STEP_LIMIT as nat);
    let mut ring = machines;
    let n = ring.len();
    if n == 0 {
        return Ok(signal);
    }
    let mut sig = signal;
    let mut turn: usize = 0;
    let mut turns: u64 = 0;
    loop
        invariant
            goal == feedback(machine_views(machines@), 0, signal, STEP_LIMIT as nat),
            ring@.len() == n,
            n > 0,
            turn < n,
            turns <= STEP_LIMIT,
            feedback(machine_views(ring@), turn as nat, sig, (STEP_LIMIT - turns) as nat)
                == goal,
        decreases STEP_LIMIT - turns,
    {
        if turns == STEP_LIMIT {
            return Err(AmplifierError::TurnLimit);
        }
        let ghost before = machine_views(ring@);
        let mut m = ring.remove(0);
        assert(m@ == before[0]);
        m.push_input(sig);
        let halt = match m.run_adv() {
            Ok(h) => h,
            Err(e) => return Err(AmplifierError::Machine(e)),
        };
        let out = match m.pop_output() {
            Some(o) => o,
            None => return Err(AmplifierError::NoOutput),
        };
        ring.push(m);
        assert(machine_views(ring@) =~= before.drop_first().push(m@));
        sig = out;
        turns = turns + 1;
        if turn + 1 == n {
            if halt == HaltReason::Terminate {
                return Ok(sig);
            }
            turn = 0;
        } else {
            turn = turn + 1;
        }
    }
}

/// The signal that leaves the feedback loop of machines on `code`, one per
/// phase with its phase queued, when 0 enters the first.
pub fn feedback_signal(code: &[i32], phases: &[i32]) -> (r: Result<i32, AmplifierError>)
    ensures
        r == feedback(phased(code@, phases@), 0, 0, STEP_LIMIT as nat),
{
    let mut machines: Vec<Computer> = Vec::new();
    let mut k: usize = 0;
    while k < phases.len()
        invariant
            k <= phases@.len(),
            machines@.len() == k,
            machine_views(machines@) =~= phased(code@, phases@.subrange(0, k as int)),
        decreases phases@.len() - k,
    {
        let mut input: Vec<i32> = Vec::new();
        input.push(phases[k]);
        assert(input@ =~= seq![phases@[k as int]]);
        let computer = Computer::new(code, input);
        assert(computer@ == fresh(code@, seq![phases@[k as int]]));
        let ghost prev = machines@;
        machines.push(computer);
        assert forall|i: int| 0 <= i < k + 1 implies #[trigger] machine_views(machines@)[i]
            == phased(code@, phases@.subrange(0, k + 1))[i] by {
            if i < k {
                assert(machines@[i] == prev[i]);
                assert(machine_views(prev)[i] == phased(code@, phases@.subrange(0, k as int))[i]);
            }
        }
        assert(machine_views(machines@) =~= phased(code@, phases@.subrange(0, k + 1)));
        k = k + 1;
    }
    assert(phases@.subrange(0, k as int) =~= phases@);
    run_feedback(machines, 0)
}

/// The largest signal of the series over the phase orderings `orderings`,
/// or the first error met.
pub fn max_serial_signal(code: &[i32], orderings: &Vec<Vec<i32>>) -> (r: Result<i32, AmplifierError>)
    ensures
        r == max_serial_from(code@, views(orderings@), i32::MIN),
{
    let mut best: i32 = i32::MIN;
    let mut k: usize = 0;
    assert(views(orderings@).skip(0) =~= views(orderings@));
    while k < orderings.len()
        invariant
            k <= orderings@.len(),
            max_serial_from(code@, views(orderings@).skip(k as int), best) == max_serial_from(
                code@,
                views(orderings@),
                i32::MIN,
            ),
        decreases orderings@.len() - k,
    {
        assert(views(orderings@).skip(k as int).drop_first() =~= views(orderings@).skip(k + 1));
        assert(views(orderings@).skip(k as int)[0] == orderings@[k as int]@);
        let s = match serial_signal(code, orderings[k].as_slice()) {
            Ok(s) => s,
            Err(e) => return Err(e),
        };
        if s > best {
            best = s;
        }
        k = k + 1;
    }
    assert(views(orderings@).skip(k as int) =~= Seq::<Seq<i32>>::empty());
    Ok(best)
}

/// The largest signal of the feedback loop over the phase orderings
/// `orderings`, or the first error met.
pub fn max_feedback_signal(code: &[i32], orderings: &Vec<Vec<i32>>) -> (r: Result<
    i32,
    AmplifierError,
>)
    ensures
        r == max_feedback_from(code@, views(orderings@), i32::MIN),
{
    let mut best: i32 = i32::MIN;
    let mut k: usize = 0;
    assert(views(orderings@).skip(0) =~= views(orderings@));
    while k < orderings.len()
        invariant
            k <= orderings@.len(),
            max_feedback_from(code@, views(orderings@).skip(k as int), best) == max_feedback_from(
                code@,
                views(orderings@),
                i32::MIN,
            ),
        decreases orderings@.len() - k,
    {
        assert(views(orderings@).skip(k as int).drop_first() =~= views(orderings@).skip(k + 1));
        assert(views(orderings@).skip(k as int)[0] == orderings@[k as int]@);
        let s = match feedback_signal(code, orderings[k].as_slice()) {
            Ok(s) => s,
            Err(e) => return Err(e),
        };
        if s > best {
            best = s;
        }
        k = k + 1;
    }
    assert(views(orderings@).skip(k as int) =~= Seq::<Seq<i32>>::empty());
    Ok(best)
}

/// The largest signal of the series over every ordering of `phases`.
pub fn best_serial_signal(code: &[i32], phases: &Vec<i32>) -> (r: Result<i32, AmplifierError>)
    ensures
        r == max_serial_from(code@, orderings_of(phases@), i32::MIN),
{
    let orderings = all_orderings(phases);
    max_serial_signal(code, &orderings)
}

/// The largest signal of the feedback loop over every ordering of `phases`.
pub fn best_feedback_signal(code: &[i32], phases: &Vec<i32>) -> (r: Result<i32, AmplifierError>)
    ensures
        r == max_feedback_from(code@, orderings_of(phases@), i32::MIN),
{
    let orderings = all_orderings(phases);
    max_feedback_signal(code, &orderings)
}

} // verus!
