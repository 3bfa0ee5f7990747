//! Execution: a parsed program run on a bounded tape of byte cells.

use crate::parser::{well_linked, Construct};
use vstd::prelude::*;

verus! {

/// Number of cells on the tape.
pub const TAPE_SIZE: usize = 1024;

#[derive(Debug, PartialEq, Eq, Structural, Clone, Copy)]
pub enum RuntimeError {
    /// The cell pointer would move below the first cell.
    OOBMoveLeft,
    /// The cell pointer would move past the last cell.
    OOBMoveRight,
    /// A cell was accessed at an index outside the tape.
    OOBCell { idx: usize },
    /// A read found no input left.
    ExpectedInput,
}

/// The state of the tape machine, as mathematics.
///
/// `input` is consumed from its end: the next byte to be read is the last.
pub struct Machine {
    pub input: Seq<u8>,
    pub output: Seq<u8>,
    pub tape: Seq<u8>,
    pub cell_idx: int,
    pub instruction_idx: int,
}

/// The state in which every run starts: a zeroed tape, both pointers at
/// zero, nothing written yet.
pub open spec fn initial(input: Seq<u8>) -> Machine {
    Machine {
        input,
        output: Seq::empty(),
        tape: Seq::new(TAPE_SIZE as nat, |i: int| 0u8),
        cell_idx: 0,
        instruction_idx: 0,
    }
}

/// The cell pointer is on the tape and the tape has its fixed length.
pub open spec fn well_formed(m: Machine) -> bool {
    &&& m.tape.len() == TAPE_SIZE
    &&& 0 <= m.cell_idx < TAPE_SIZE
    &&& 0 <= m.instruction_idx
}

/// The byte after `v`, wrapping from 255 to 0.
pub open spec fn successor(v: u8) -> u8 {
    if v == 255 {
        0
    } else {
        (v + 1) as u8
    }
}

/// The byte before `v`, wrapping from 0 to 255.
pub open spec fn predecessor(v: u8) -> u8 {
    if v == 0 {
        255
    } else {
        (v - 1) as u8
    }
}

/// The effect of one instruction on the machine, before the instruction
/// pointer advances. A jump that is taken sets the instruction pointer to its
/// target.
pub open spec fn apply(c: Construct, m: Machine) -> Result<Machine, RuntimeError> {
    let cell = m.tape[m.cell_idx];
    match c {
        Construct::MoveRight => if m.cell_idx + 1 < m.tape.len() {
            Ok(Machine { cell_idx: m.cell_idx + 1, ..m })
        } else {
            Err(RuntimeError::OOBMoveRight)
        },
        Construct::MoveLeft => if m.cell_idx > 0 {
            Ok(Machine { cell_idx: m.cell_idx - 1, ..m })
        } else {
            Err(RuntimeError::OOBMoveLeft)
        },
        Construct::Increment => Ok(Machine { tape: m.tape.update(m.cell_idx, successor(cell)), ..m }),
        Construct::Decrement => Ok(Machine { tape: m.tape.update(m.cell_idx, predecessor(cell)), ..m }),
        Construct::Write => Ok(Machine { output: m.output.push(cell), ..m }),
        Construct::Read => if m.input.len() == 0 {
            Err(RuntimeError::ExpectedInput)
        } else {
            Ok(Machine { input: m.input.drop_last(), tape: m.tape.update(m.cell_idx, m.input.last()), ..m })
        },
        Construct::JumpIfFalsy { jump_idx } => if cell == 0 {
            Ok(Machine { instruction_idx: jump_idx as int, ..m })
        } else {
            Ok(m)
        },
        Construct::JumpIfTruthy { jump_idx } => if cell != 0 {
            Ok(Machine { instruction_idx: jump_idx as int, ..m })
        } else {
            Ok(m)
        },
    }
}

/// One step: the current instruction takes effect, then the instruction
/// pointer advances by one, also after a jump that was taken.
pub open spec fn step(program: Seq<Construct>, m: Machine) -> Result<Machine, RuntimeError> {
    match apply(program[m.instruction_idx], m) {
        Ok(next) => Ok(Machine { instruction_idx: next.instruction_idx + 1, ..next }),
        Err(e) => Err(e),
    }
}

/// The instruction pointer is on an instruction of the program.
pub open spec fn running(program: Seq<Construct>, m: Machine) -> bool {
    0 <= m.instruction_idx < program.len()
}

/// The machine after at most `steps` steps: it stops early when the
/// instruction pointer leaves the program or a step fails.
pub open spec fn run(program: Seq<Construct>, m: Machine, steps: nat) -> Result<Machine, RuntimeError>
    decreases steps,
{
    if steps == 0 || !running(program, m) {
        Ok(m)
    } else {
        match step(program, m) {
            Ok(next) => run(program, next, (steps - 1) as nat),
            Err(e) => Err(e),
        }
    }
}

/// The run from `m` is over after at most `steps` steps.
pub open spec fn stops_within(program: Seq<Construct>, m: Machine, steps: nat) -> bool {
    match run(program, m, steps) {
        Ok(end) => !running(program, end),
        Err(_) => true,
    }
}

/// The run from `m` comes to an end.
pub open spec fn halts(program: Seq<Construct>, m: Machine) -> bool {
    exists|steps: nat| stops_within(program, m, steps)
}

/// How a run that comes to an end does end: in the machine's last state, or
/// in the error of the step that failed.
pub open spec fn outcome(program: Seq<Construct>, m: Machine) -> Result<Machine, RuntimeError> {
    run(program, m, choose|steps: nat| stops_within(program, m, steps))
}

/// No jump targets the largest index, after which the instruction pointer
/// could not advance.
pub open spec fn jumps_fit(program: Seq<Construct>) -> bool {
    forall|i: int|
        0 <= i < program.len() ==> match #[trigger] program[i] {
            Construct::JumpIfFalsy { jump_idx } => jump_idx < usize::MAX,
            Construct::JumpIfTruthy { jump_idx } => jump_idx < usize::MAX,
            _ => true,
        }
}

/// Once a run is over, more steps change nothing.
pub proof fn lemma_run_stable(program: Seq<Construct>, m: Machine, steps: nat, more: nat)
    requires
        stops_within(program, m, steps),
        steps <= more,
    ensures
        run(program, m, more) == run(program, m, steps),
    decreases steps,
{
    if steps > 0 && running(program, m) {
        match step(program, m) {
            Ok(next) => {
                lemma_run_stable(program, next, (steps - 1) as nat, (more - 1) as nat);
            },
            Err(_) => {},
        }
    }
}

/// A run that is over after `steps` steps halts, and its outcome is what
/// those steps give.
pub proof fn lemma_outcome_is_run(program: Seq<Construct>, m: Machine, steps: nat)
    requires
        stops_within(program, m, steps),
    ensures
        halts(program, m),
        outcome(program, m) == run(program, m, steps),
{
    let chosen = choose|k: nat| stops_within(program, m, k);
    if chosen <= steps {
        lemma_run_stable(program, m, chosen, steps);
    } else {
        lemma_run_stable(program, m, steps, chosen);
    }
}

/// A step keeps a well-formed machine well formed.
pub proof fn lemma_step_keeps_well_formed(program: Seq<Construct>, m: Machine)
    requires
        well_formed(m),
        running(program, m),
    ensures
        step(program, m) matches Ok(next) ==> well_formed(next),
{
}

/// Every state of a run from a well-formed machine is well formed: the cell
/// pointer never leaves the tape.
pub proof fn lemma_run_keeps_well_formed(program: Seq<Construct>, m: Machine, steps: nat)
    requires
        well_formed(m),
    ensures
        run(program, m, steps) matches Ok(end) ==> well_formed(end),
    decreases steps,
{
    if steps > 0 && running(program, m) {
        lemma_step_keeps_well_formed(program, m);
        match step(program, m) {
            Ok(next) => {
                lemma_run_keeps_well_formed(program, next, (steps - 1) as nat);
            },
            Err(_) => {},
        }
    }
}

/// In a run of a program whose jumps are linked in pairs, the instruction
/// pointer never goes further than one past the last instruction.
pub proof fn lemma_run_stays_in_program(program: Seq<Construct>, m: Machine, steps: nat)
    requires
        well_linked(program),
        0 <= m.instruction_idx <= program.len(),
    ensures
        run(program, m, steps) matches Ok(end) ==> 0 <= end.instruction_idx <= program.len(),
    decreases steps,
{
    if steps > 0 && running(program, m) {
        match step(program, m) {
            Ok(next) => {
                lemma_run_stays_in_program(program, next, (steps - 1) as nat);
            },
            Err(_) => {},
        }
    }
}

/// The running machine.
#[derive(Debug)]
pub struct Interpreter {
    input: Vec<u8>,
    output: Vec<u8>,
    tape: [u8; TAPE_SIZE],
    cell_idx: usize,
    instruction_idx: usize,
}

impl View for Interpreter {
    type V = Machine;

    closed spec fn view(&self) -> Machine {
        Machine {
            input: self.input@,
            output: self.output@,
            tape: self.tape@,
            cell_idx: self.cell_idx as int,
            instruction_idx: self.instruction_idx as int,
        }
    }
}

impl Interpreter {
    /// The state is well formed: the cell pointer is on the tape.
    pub open spec fn wf(&self) -> bool {
        well_formed(self@)
    }

    /// A fresh machine that will read `input` from its end.
    pub fn new(input: Vec<u8>) -> (r: Self)
        ensures
            r.wf(),
            r@ == initial(input@),
    {
        let r = Self { tape: [0; TAPE_SIZE], output: Vec::new(), cell_idx: 0, instruction_idx: 0, input };
        assert(r.tape@ =~= Seq::new(TAPE_SIZE as nat, |i: int| 0u8));
        r
    }

    /// The value of the current cell.
    pub fn cell(&self) -> (r: Result<&u8, RuntimeError>)
        ensures
            self.wf() ==> r == Ok::<&u8, RuntimeError>(&self@.tape[self@.cell_idx]),
            !self.wf() ==> r == Err::<&u8, RuntimeError>(RuntimeError::OOBCell { idx: self@.cell_idx as usize }),
    {
        if self.cell_idx < TAPE_SIZE {
            Ok(&self.tape[self.cell_idx])
        } else {
            Err(RuntimeError::OOBCell { idx: self.cell_idx })
        }
    }

    /// The current cell, for writing.
    pub fn cell_mut(&mut self) -> (r: Result<&mut u8, RuntimeError>)
        ensures
            old(self).wf() ==> match r {
                Ok(cell) => *cell == old(self)@.tape[old(self)@.cell_idx] && final(self)@ == (Machine {
                    tape: old(self)@.tape.update(old(self)@.cell_idx, *final(cell)),
                    ..old(self)@
                }),
                Err(_) => false,
            },
            !old(self).wf() ==> r is Err && r->Err_0 == (RuntimeError::OOBCell {
                idx: old(self)@.cell_idx as usize,
            }) && *final(self) == *old(self),
    {
        if self.cell_idx < TAPE_SIZE {
            Ok(&mut self.tape[self.cell_idx])
        } else {
            Err(RuntimeError::OOBCell { idx: self.cell_idx })
        }
    }

    /// Adds one to the current cell, wrapping from 255 to 0.
    pub fn increment(&mut self) -> (r: Result<(), RuntimeError>)
        requires
            old(self).wf(),
        ensures
            final(self).wf(),
            r is Ok,
            final(self)@ == (Machine {
                tape: old(self)@.tape.update(old(self)@.cell_idx, successor(old(self)@.tape[old(self)@.cell_idx])),
                ..old(self)@
            }),
    {
        let cell = self.cell_mut()?;
        *cell = cell.wrapping_add(1);
        Ok(())
    }

    /// Subtracts one from the current cell, wrapping from 0 to 255.
    pub fn decrement(&mut self) -> (r: Result<(), RuntimeError>)
        requires
            old(self).wf(),
        ensures
            final(self).wf(),
            r is Ok,
            final(self)@ == (Machine {
                tape: old(self)@.tape.update(old(self)@.cell_idx, predecessor(old(self)@.tape[old(self)@.cell_idx])),
                ..old(self)@
            }),
    {
        let cell = self.cell_mut()?;
        *cell = cell.wrapping_sub(1);
        Ok(())
    }

    /// Moves the cell pointer one cell to the right, unless it is on the
    /// last cell.
    pub fn move_right(&mut self) -> (r: Result<(), RuntimeError>)
        requires
            old(self).wf(),
        ensures
            final(self).wf(),
            old(self)@.cell_idx + 1 < TAPE_SIZE ==> r is Ok && final(self)@ == (Machine {
                cell_idx: old(self)@.cell_idx + 1,
                ..old(self)@
            }),
            old(self)@.cell_idx + 1 >= TAPE_SIZE ==> r == Err::<(), RuntimeError>(RuntimeError::OOBMoveRight)
                && final(self)@ == old(self)@,
    {
        if self.cell_idx + 1 < self.tape.len() {
            self.cell_idx += 1;
            Ok(())
        } else {
            Err(RuntimeError::OOBMoveRight)
        }
    }

    /// Moves the cell pointer one cell to the left, unless it is on the
    /// first cell.
    pub fn move_left(&mut self) -> (r: Result<(), RuntimeError>)
        requires
            old(self).wf(),
        ensures
            final(self).wf(),
            old(self)@.cell_idx > 0 ==> r is Ok && final(self)@ == (Machine {
                cell_idx: old(self)@.cell_idx - 1,
                ..old(self)@
            }),
            old(self)@.cell_idx == 0 ==> r == Err::<(), RuntimeError>(RuntimeError::OOBMoveLeft) && final(self)@
                == old(self)@,
    {
        if self.cell_idx.checked_sub(1).is_some() {
            self.cell_idx -= 1;
            Ok(())
        } else {
            Err(RuntimeError::OOBMoveLeft)
        }
    }

    /// Appends the current cell to the output.
    pub fn write(&mut self) -> (r: Result<(), RuntimeError>)
        requires
            old(self).wf(),
        ensures
            final(self).wf(),
            r is Ok,
            final(self)@ == (Machine {
                output: old(self)@.output.push(old(self)@.tape[old(self)@.cell_idx]),
                ..old(self)@
            }),
    {
        let cell = *self.cell()?;
        self.output.push(cell);
        Ok(())
    }

    /// Takes the last byte of the input and stores it in the current cell.
    pub fn read(&mut self) -> (r: Result<(), RuntimeError>)
        requires
            old(self).wf(),
        ensures
            final(self).wf(),
            old(self)@.input.len() > 0 ==> r is Ok && final(self)@ == (Machine {
                input: old(self)@.input.drop_last(),
                tape: old(self)@.tape.update(old(self)@.cell_idx, old(self)@.input.last()),
                ..old(self)@
            }),
            old(self)@.input.len() == 0 ==> r == Err::<(), RuntimeError>(RuntimeError::ExpectedInput)
                && final(self)@ == old(self)@,
    {
        let input = match self.input.pop() {
            Some(b) => b,
            None => {
                return Err(RuntimeError::ExpectedInput);
            },
        };
        let cell = self.cell_mut()?;
        *cell = input;
        Ok(())
    }

    /// Whether a jump-if-falsy jumps: the current cell is zero.
    pub fn jump_falsy(&self) -> (r: Result<bool, RuntimeError>)
        requires
            self.wf(),
        ensures
            r == Ok::<bool, RuntimeError>(self@.tape[self@.cell_idx] == 0),
    {
        let cell = *self.cell()?;
        Ok(cell == 0)
    }

    /// Whether a jump-if-truthy jumps: the current cell is not zero.
    pub fn jump_truthy(&self) -> (r: Result<bool, RuntimeError>)
        requires
            self.wf(),
        ensures
            r == Ok::<bool, RuntimeError>(self@.tape[self@.cell_idx] != 0),
    {
        let cell = *self.cell()?;
        Ok(cell != 0)
    }

    /// Sets the instruction pointer to `match_idx` if `should_jump`.
    pub fn jump(&mut self, should_jump: bool, match_idx: usize) -> (r: Result<(), RuntimeError>)
        requires
            old(self).wf(),
        ensures
            final(self).wf(),
            r is Ok,
            should_jump ==> final(self)@ == (Machine { instruction_idx: match_idx as int, ..old(self)@ }),
            !should_jump ==> final(self)@ == old(self)@,
    {
        if should_jump {
            self.instruction_idx = match_idx;
        }
        Ok(())
    }

    /// Lets one instruction take effect, without advancing the instruction
    /// pointer. On an error the machine is left as it was.
    pub fn process_instruction(&mut self, instruction: &Construct) -> (r: Result<(), RuntimeError>)
        requires
            old(self).wf(),
        ensures
            final(self).wf(),
            match apply(*instruction, old(self)@) {
                Ok(next) => r is Ok && final(self)@ == next,
                Err(e) => r == Err::<(), RuntimeError>(e) && final(self)@ == old(self)@,
            },
    {
        match instruction {
            Construct::MoveRight => self.move_right(),
            Construct::MoveLeft => self.move_left(),
            Construct::Increment => self.increment(),
            Construct::Decrement => self.decrement(),
            Construct::Write => self.write(),
            Construct::Read => self.read(),
            Construct::JumpIfFalsy { jump_idx: match_idx } => {
                let should_jump = self.jump_falsy()?;
                self.jump(should_jump, *match_idx)
            },
            Construct::JumpIfTruthy { jump_idx: match_idx } => {
                let should_jump = self.jump_truthy()?;
                self.jump(should_jump, *match_idx)
            },
        }?;
        Ok(())
    }

    /// Runs the program from the current state for at most `budget` steps,
    /// and tells whether the run is over.
    pub fn process_within(&mut self, instructions: &[Construct], budget: usize) -> (r: Result<
        bool,
        RuntimeError,
    >)
        requires
            old(self).wf(),
            jumps_fit(instructions@),
        ensures
            final(self).wf(),
            match run(instructions@, old(self)@, budget as nat) {
                Ok(end) => r == Ok::<bool, RuntimeError>(!running(instructions@, end)) && final(self)@ == end,
                Err(e) => r == Err::<bool, RuntimeError>(e),
            },
    {
        let ghost program = instructions@;
        let ghost start = self@;
        let mut left: usize = budget;
        while left > 0 && self.instruction_idx < instructions.len()
            invariant
                program == instructions@,
                start == old(self)@,
                self.wf(),
                jumps_fit(program),
                run(program, self@, left as nat) == run(program, start, budget as nat),
            decreases left,
        {
            let ghost before = self@;
            let instruction = instructions[self.instruction_idx];
            assert(instruction == program[before.instruction_idx]);
            match self.process_instruction(&instruction) {
                Ok(()) => {},
                Err(e) => {
                    assert(step(program, before) == Err::<Machine, RuntimeError>(e));
                    assert(run(program, before, left as nat) == Err::<Machine, RuntimeError>(e));
                    return Err(e);
                },
            }
            self.instruction_idx += 1;
            left -= 1;
            assert(step(program, before) == Ok::<Machine, RuntimeError>(self@));
        }
        Ok(self.instruction_idx >= instructions.len())
    }

    /// Runs the program from the current state to its end.
    ///
    /// The program must come to an end from this state. The machine is then
    /// left in the last state of the run, or the error of the step that
    /// failed is returned.
    pub fn process(&mut self, instructions: &[Construct]) -> (r: Result<(), RuntimeError>)
        requires
            old(self).wf(),
            jumps_fit(instructions@),
            halts(instructions@, old(self)@),
        ensures
            final(self).wf(),
            match outcome(instructions@, old(self)@) {
                Ok(end) => r is Ok && final(self)@ == end,
                Err(e) => r == Err::<(), RuntimeError>(e),
            },
    {
        let ghost program = instructions@;
        let ghost start = self@;
        let ghost mut fuel: nat = choose|steps: nat| stops_within(program, start, steps);
        while self.instruction_idx < instructions.len()
            invariant
                program == instructions@,
                start == old(self)@,
                self.wf(),
                jumps_fit(program),
                stops_within(program, self@, fuel),
                run(program, self@, fuel) == outcome(program, start),
            decreases fuel,
        {
            let ghost before = self@;
            assert(running(program, before));
            assert(fuel > 0);
            let instruction = instructions[self.instruction_idx];
            assert(instruction == program[before.instruction_idx]);
            match self.process_instruction(&instruction) {
                Ok(()) => {},
                Err(e) => {
                    assert(step(program, before) == Err::<Machine, RuntimeError>(e));
                    assert(run(program, before, fuel) == Err::<Machine, RuntimeError>(e));
                    return Err(e);
                },
            }
            self.instruction_idx += 1;
            proof {
                assert(step(program, before) == Ok::<Machine, RuntimeError>(self@));
                fuel = (fuel - 1) as nat;
            }
        }
        assert(!running(program, self@));
        Ok(())
    }
}

/// Runs `instructions` on a fresh machine for at most `budget` steps.
///
/// `input` is read from its end. Gives what the machine wrote if the run is
/// over within the budget, and `None` if it is not; a step that fails within
/// the budget gives its error.
pub fn interpret_within(instructions: &[Construct], input: Vec<u8>, budget: usize) -> (r: Result<
    Option<Vec<u8>>,
    RuntimeError,
>)
    requires
        jumps_fit(instructions@),
    ensures
        match run(instructions@, initial(input@), budget as nat) {
            Ok(end) => if running(instructions@, end) {
                r == Ok::<Option<Vec<u8>>, RuntimeError>(None)
            } else {
                r matches Ok(Some(output)) && output@ == end.output
            },
            Err(e) => r == Err::<Option<Vec<u8>>, RuntimeError>(e),
        },
        stops_within(instructions@, initial(input@), budget as nat) ==> halts(instructions@, initial(input@))
            && match outcome(instructions@, initial(input@)) {
            Ok(end) => r matches Ok(Some(output)) && output@ == end.output,
            Err(e) => r == Err::<Option<Vec<u8>>, RuntimeError>(e),
        },
{
    proof {
        if stops_within(instructions@, initial(input@), budget as nat) {
            lemma_outcome_is_run(instructions@, initial(input@), budget as nat);
        }
    }
    let mut interpreter = Interpreter::new(input);
    match interpreter.process_within(instructions, budget) {
        Ok(true) => Ok(Some(interpreter.output)),
        Ok(false) => Ok(None),
        Err(e) => Err(e),
    }
}

/// Runs `instructions` on a fresh machine and returns what it wrote.
///
/// `input` is read from its end. The program must come to an end on this
/// input. The result is then the output of the last state of the run, or the
/// error of the step that failed.
pub fn interpret(instructions: &[Construct], input: Vec<u8>) -> (r: Result<Vec<u8>, RuntimeError>)
    requires
        jumps_fit(instructions@),
        halts(instructions@, initial(input@)),
    ensures
        match outcome(instructions@, initial(input@)) {
            Ok(end) => r is Ok && r->Ok_0@ == end.output,
            Err(e) => r == Err::<Vec<u8>, RuntimeError>(e),
        },
{
    let mut interpreter = Interpreter::new(input);
    match interpreter.process(instructions) {
        Ok(()) => Ok(interpreter.output),
        Err(e) => Err(e),
    }
}

} // verus!
