//! The executable interpreter core: a machine that takes one opcode step
//! at a time, verified against the small-step semantics in `semantics`.

use vstd::prelude::*;

use crate::semantics::{
    advance, classify, init_state, is_reserved, is_terminal, is_tier1, is_tier2, is_tier3,
    lemma_run_n_settled, run_n, scan_bwd, scan_fwd, step, step_ext1, step_ext2, Config, MState,
    Outcome, StepResult, VmError,
};

verus! {

/// What one call of [`Machine::step`] did.
#[derive(Debug, PartialEq, Eq, Structural, Clone, Copy)]
pub enum StepStatus {
    /// One opcode was executed (a gated or unclaimed character counts as
    /// its no-op execution).
    Ran,
    /// The opcode is claimed by an active tier but deliberately has no
    /// semantics yet; the machine moved past it without any other effect.
    Unimplemented,
    /// `,` found no input byte left. Nothing changed; feed a byte with
    /// [`Machine::push_input`] and step again, or treat it as
    /// [`VmError::InputExhausted`] when no interactive source exists.
    AwaitingInput,
    /// The machine is at a terminal state: `@` was executed or the
    /// instruction pointer reached the end of the program.
    Finished,
}

/// An opcode that an active tier claims but leaves without semantics.
pub open spec fn reserved_active(cfg: Config, s: MState) -> bool {
    let c = cfg.prog[s.ip];
    is_reserved(c) && (if is_tier3(c) {
        cfg.level >= 3
    } else {
        cfg.level >= 2
    })
}

/// One interpreter machine: the decoded program, the tape, both cursors,
/// the storage register, the input bytes still to be consumed and the
/// output bytes produced so far.
pub struct Machine {
    /// The decoded program, one character per opcode position.
    pub prog: Vec<char>,
    /// Extended-instruction capability level (0-3).
    pub level: u8,
    /// Pre-supplied input bytes, consumed in order by `,`.
    pub input: Vec<u8>,
    /// How many input bytes have been consumed.
    pub in_idx: usize,
    /// The tape cells.
    pub tape: Vec<u8>,
    /// Instruction pointer.
    pub ip: usize,
    /// Data pointer.
    pub dp: usize,
    /// Scratch register used by the extended instruction tiers.
    pub storage: u8,
    /// Bytes emitted by `.` so far.
    pub out: Vec<u8>,
    /// Set once `@` has executed.
    pub halted: bool,
}

impl Machine {
    /// The configuration this machine runs under.
    pub open spec fn cfg(&self) -> Config {
        Config { prog: self.prog@, level: self.level, input: self.input@ }
    }

    /// The state of this machine, as the semantics sees it.
    pub open spec fn st(&self) -> MState {
        MState {
            ip: self.ip as int,
            dp: self.dp as int,
            tape: self.tape@,
            storage: self.storage,
            in_idx: self.in_idx as int,
            out: self.out@,
            halted: self.halted,
        }
    }

    /// Well-formedness: both cursors and the input index stay inside
    /// their ranges. Constructors establish it and every method keeps it.
    pub open spec fn wf(&self) -> bool {
        &&& self.dp < self.tape.len()
        &&& self.ip <= self.prog.len()
        &&& self.in_idx <= self.input.len()
    }

    /// Builds a machine over `prog` with a zeroed tape of `tape_size`
    /// cells, carrying in the data pointer and storage register of the
    /// owning interpreter instance.
    pub fn new(
        prog: Vec<char>,
        tape_size: usize,
        level: u8,
        input: Vec<u8>,
        dp: usize,
        storage: u8,
    ) -> (m: Machine)
        requires
            dp < tape_size,
        ensures
            m.wf(),
            m.cfg() == (Config { prog: prog@, level: level, input: input@ }),
            m.st() == init_state(tape_size as nat, dp as int, storage),
    {
        let mut tape: Vec<u8> = Vec::new();
        let mut i: usize = 0;
        while i < tape_size
            invariant
                i <= tape_size,
                tape@ == Seq::new(i as nat, |k: int| 0u8),
            decreases tape_size - i,
        {
            tape.push(0);
            i = i + 1;
            proof {
                assert(tape@ =~= Seq::new(i as nat, |k: int| 0u8));
            }
        }
        let m = Machine {
            prog,
            level,
            input,
            in_idx: 0,
            tape,
            ip: 0,
            dp,
            storage,
            out: Vec::new(),
            halted: false,
        };
        proof {
            assert(m.st().out =~= init_state(tape_size as nat, dp as int, storage).out);
        }
        m
    }

    /// Appends one byte to the pre-supplied input, for interactive
    /// drivers answering [`StepStatus::AwaitingInput`].
    pub fn push_input(&mut self, b: u8)
        requires
            old(self).wf(),
        ensures
            final(self).wf(),
            final(self).input@ == old(self).input@.push(b),
            final(self).prog == old(self).prog,
            final(self).level == old(self).level,
            final(self).st() == old(self).st(),
    {
        self.input.push(b);
    }

    /// Executes one opcode, or reports why it cannot: the outcome is
    /// exactly what the semantics' `step` function says of this state.
    pub fn step(&mut self) -> (r: Result<StepStatus, VmError>)
        requires
            old(self).wf(),
        ensures
            final(self).wf(),
            final(self).cfg() == old(self).cfg(),
            match r {
                Ok(StepStatus::Finished) => {
                    &&& is_terminal(old(self).cfg(), old(self).st())
                    &&& *final(self) == *old(self)
                },
                Ok(StepStatus::AwaitingInput) => {
                    &&& !is_terminal(old(self).cfg(), old(self).st())
                    &&& step(old(self).cfg(), old(self).st()) == StepResult::Fatal(
                        VmError::InputExhausted,
                    )
                    &&& *final(self) == *old(self)
                },
                Ok(StepStatus::Ran) => {
                    &&& !is_terminal(old(self).cfg(), old(self).st())
                    &&& !reserved_active(old(self).cfg(), old(self).st())
                    &&& step(old(self).cfg(), old(self).st()) == StepResult::Next(
                        final(self).st(),
                    )
                },
                Ok(StepStatus::Unimplemented) => {
                    &&& !is_terminal(old(self).cfg(), old(self).st())
                    &&& reserved_active(old(self).cfg(), old(self).st())
                    &&& step(old(self).cfg(), old(self).st()) == StepResult::Next(
                        final(self).st(),
                    )
                    &&& final(self).st() == advance(old(self).st())
                },
                Err(e) => {
                    &&& !is_terminal(old(self).cfg(), old(self).st())
                    &&& step(old(self).cfg(), old(self).st()) == StepResult::Fatal(e)
                    &&& e == VmError::MalformedProgram
                    &&& *final(self) == *old(self)
                },
            },
    {
        if self.halted || self.ip >= self.prog.len() {
            return Ok(StepStatus::Finished);
        }
        let c = self.prog[self.ip];
        if c == '>' {
            if self.dp + 1 < self.tape.len() {
                self.dp = self.dp + 1;
            }
            self.ip = self.ip + 1;
            Ok(StepStatus::Ran)
        } else if c == '<' {
            if self.dp != 0 {
                self.dp = self.dp - 1;
            }
            self.ip = self.ip + 1;
            Ok(StepStatus::Ran)
        } else if c == '+' {
            let v = self.tape[self.dp];
            self.tape.set(self.dp, v.wrapping_add(1));
            self.ip = self.ip + 1;
            Ok(StepStatus::Ran)
        } else if c == '-' {
            let v = self.tape[self.dp];
            self.tape.set(self.dp, v.wrapping_sub(1));
            self.ip = self.ip + 1;
            Ok(StepStatus::Ran)
        } else if c == '.' {
            let v = self.tape[self.dp];
            self.out.push(v);
            self.ip = self.ip + 1;
            Ok(StepStatus::Ran)
        } else if c == ',' {
            if self.in_idx < self.input.len() {
                let b = self.input[self.in_idx];
                self.tape.set(self.dp, b);
                self.in_idx = self.in_idx + 1;
                self.ip = self.ip + 1;
                Ok(StepStatus::Ran)
            } else {
                Ok(StepStatus::AwaitingInput)
            }
        } else if c == '[' {
            if self.tape[self.dp] == 0 {
                match find_fwd(&self.prog, self.ip + 1) {
                    Some(j) => {
                        self.ip = j + 1;
                        Ok(StepStatus::Ran)
                    },
                    None => Err(VmError::MalformedProgram),
                }
            } else {
                self.ip = self.ip + 1;
                Ok(StepStatus::Ran)
            }
        } else if c == ']' {
            if self.tape[self.dp] != 0 {
                match find_bwd(&self.prog, self.ip) {
                    Some(j) => {
                        self.ip = j + 1;
                        Ok(StepStatus::Ran)
                    },
                    None => Err(VmError::MalformedProgram),
                }
            } else {
                self.ip = self.ip + 1;
                Ok(StepStatus::Ran)
            }
        } else if c == '@' || c == '$' || c == '!' || c == '}' || c == '{' || c == '~' || c == '^'
            || c == '&' || c == '|' {
            if self.level < 1 {
                self.ip = self.ip + 1;
                Ok(StepStatus::Ran)
            } else {
                self.step_tier1(c);
                Ok(StepStatus::Ran)
            }
        } else if c == '?' || c == '(' || c == ')' || c == '*' || c == '/' || c == '=' || c == '_'
            || c == '%' {
            if self.level < 2 {
                self.ip = self.ip + 1;
                Ok(StepStatus::Ran)
            } else if c == '?' || c == '(' || c == ')' {
                self.ip = self.ip + 1;
                Ok(StepStatus::Unimplemented)
            } else {
                self.step_tier2(c);
                Ok(StepStatus::Ran)
            }
        } else if c == 'X' || c == 'x' || c == 'M' || c == 'm' || c == 'L' || c == 'l' || c == ':'
            || c == '#' || ('0' <= c && c <= '9') || ('A' <= c && c <= 'F') {
            self.ip = self.ip + 1;
            if self.level < 3 {
                Ok(StepStatus::Ran)
            } else {
                Ok(StepStatus::Unimplemented)
            }
        } else {
            self.ip = self.ip + 1;
            Ok(StepStatus::Ran)
        }
    }

    /// Runs the machine for at most `budget` opcode steps. This is the
    /// non-interactive mode: input is the pre-supplied bytes only, so `,`
    /// on an exhausted input is the fatal `InputExhausted`. The result is
    /// exactly what the semantics' `run_n` gives at fuel `budget`:
    /// `Ok(true)` when the run completed, `Ok(false)` when the budget ran
    /// out with the machine still running, `Err` when a fatal error
    /// stopped it. An interactive driver steps the machine itself instead.
    #[verifier::loop_isolation(false)]
    pub fn run_for(&mut self, budget: u64) -> (r: Result<bool, VmError>)
        requires
            old(self).wf(),
        ensures
            final(self).wf(),
            final(self).cfg() == old(self).cfg(),
            match r {
                Ok(true) => run_n(old(self).cfg(), old(self).st(), budget as nat) == Outcome::Done(
                    final(self).st(),
                ),
                Ok(false) => run_n(old(self).cfg(), old(self).st(), budget as nat)
                    == Outcome::Running(final(self).st()),
                Err(e) => run_n(old(self).cfg(), old(self).st(), budget as nat) == Outcome::Failed(
                    final(self).st(),
                    e,
                ),
            },
    {
        let ghost cfg0 = old(self).cfg();
        let ghost s0 = old(self).st();
        let mut i: u64 = 0;
        while i < budget
            invariant
                i <= budget,
                self.wf(),
                self.cfg() == cfg0,
                run_n(cfg0, s0, i as nat) == classify(cfg0, self.st()),
            decreases budget - i,
        {
            let ghost pre = self.st();
            let res = self.step();
            match res {
                Ok(StepStatus::Finished) => {
                    proof {
                        lemma_run_n_settled(cfg0, s0, i as nat, budget as nat);
                    }
                    return Ok(true);
                },
                Ok(StepStatus::AwaitingInput) => {
                    proof {
                        assert(run_n(cfg0, s0, (i + 1) as nat) == Outcome::Failed(
                            pre,
                            VmError::InputExhausted,
                        ));
                        lemma_run_n_settled(cfg0, s0, (i + 1) as nat, budget as nat);
                    }
                    return Err(VmError::InputExhausted);
                },
                Err(e) => {
                    proof {
                        assert(run_n(cfg0, s0, (i + 1) as nat) == Outcome::Failed(pre, e));
                        lemma_run_n_settled(cfg0, s0, (i + 1) as nat, budget as nat);
                    }
                    return Err(e);
                },
                Ok(_) => {
                    proof {
                        assert(run_n(cfg0, s0, (i + 1) as nat) == classify(cfg0, self.st()));
                    }
                    i = i + 1;
                },
            }
        }
        if self.halted || self.ip >= self.prog.len() {
            proof {
                lemma_run_n_settled(cfg0, s0, i as nat, budget as nat);
            }
            Ok(true)
        } else {
            Ok(false)
        }
    }

    /// Executes an active tier-1 opcode.
    fn step_tier1(&mut self, c: char)
        requires
            old(self).wf(),
            old(self).ip < old(self).prog.len(),
            old(self).prog@[old(self).ip as int] == c,
            is_tier1(c),
            old(self).level >= 1,
        ensures
            final(self).wf(),
            final(self).cfg() == old(self).cfg(),
            final(self).st() == step_ext1(old(self).st(), c),
    {
        if c == '@' {
            self.halted = true;
        } else if c == '$' {
            self.storage = self.tape[self.dp];
            self.ip = self.ip + 1;
        } else if c == '!' {
            self.tape.set(self.dp, self.storage);
            self.ip = self.ip + 1;
        } else if c == '}' {
            let v = self.tape[self.dp];
            self.tape.set(self.dp, v / 2);
            self.ip = self.ip + 1;
        } else if c == '{' {
            let v = self.tape[self.dp];
            self.tape.set(self.dp, v.wrapping_mul(2));
            self.ip = self.ip + 1;
        } else if c == '~' {
            let v = self.tape[self.dp];
            self.tape.set(self.dp, !v);
            self.ip = self.ip + 1;
        } else if c == '^' {
            let v = self.tape[self.dp];
            self.tape.set(self.dp, v ^ self.storage);
            self.ip = self.ip + 1;
        } else if c == '&' {
            let v = self.tape[self.dp];
            self.tape.set(self.dp, v & self.storage);
            self.ip = self.ip + 1;
        } else {
            let v = self.tape[self.dp];
            self.tape.set(self.dp, v | self.storage);
            self.ip = self.ip + 1;
        }
    }

    /// Executes an active tier-2 opcode that has a semantics (not one of
    /// the reserved `?`, `(`, `)`).
    fn step_tier2(&mut self, c: char)
        requires
            old(self).wf(),
            old(self).ip < old(self).prog.len(),
            old(self).prog@[old(self).ip as int] == c,
            is_tier2(c),
            !(c == '?' || c == '(' || c == ')'),
            old(self).level >= 2,
        ensures
            final(self).wf(),
            final(self).cfg() == old(self).cfg(),
            final(self).st() == step_ext2(old(self).st(), c),
    {
        if c == '*' {
            let v = self.tape[self.dp];
            self.tape.set(self.dp, v.wrapping_mul(self.storage));
            self.ip = self.ip + 1;
        } else if c == '/' {
            if self.storage != 0 {
                let v = self.tape[self.dp];
                self.tape.set(self.dp, v / self.storage);
            }
            self.ip = self.ip + 1;
        } else if c == '=' {
            let v = self.tape[self.dp];
            self.tape.set(self.dp, v.wrapping_add(self.storage));
            self.ip = self.ip + 1;
        } else if c == '_' {
            let v = self.tape[self.dp];
            self.tape.set(self.dp, v.wrapping_sub(self.storage));
            self.ip = self.ip + 1;
        } else {
            if self.storage != 0 {
                let v = self.tape[self.dp];
                self.tape.set(self.dp, v % self.storage);
            }
            self.ip = self.ip + 1;
        }
    }
}

/// Finds the `]` matching an already-seen `[`, scanning forward from
/// `start` at depth one; `None` means the scan ran off the end.
fn find_fwd(prog: &Vec<char>, start: usize) -> (r: Option<usize>)
    requires
        1 <= start <= prog.len(),
    ensures
        match r {
            Some(j) => start <= j < prog.len() && scan_fwd(prog@, start as int, 1) == Some(
                j as int,
            ),
            None => scan_fwd(prog@, start as int, 1) is None,
        },
{
    let mut j: usize = start;
    let mut depth: usize = 1;
    loop
        invariant
            1 <= start <= j <= prog.len(),
            1 <= depth <= j - start + 1,
            scan_fwd(prog@, start as int, 1) == scan_fwd(prog@, j as int, depth as int),
        decreases prog.len() - j,
    {
        if j >= prog.len() {
            return None;
        }
        let c = prog[j];
        if c == ']' && depth == 1 {
            return Some(j);
        }
        if c == '[' {
            depth = depth + 1;
        } else if c == ']' {
            depth = depth - 1;
        }
        j = j + 1;
    }
}

/// Finds the `[` matching the `]` at position `from`, scanning backward
/// from the position before it at depth one; `None` means the scan ran
/// off the front.
fn find_bwd(prog: &Vec<char>, from: usize) -> (r: Option<usize>)
    requires
        from < prog.len(),
    ensures
        match r {
            Some(j) => j < from && scan_bwd(prog@, from as int - 1, 1) == Some(j as int),
            None => scan_bwd(prog@, from as int - 1, 1) is None,
        },
{
    if from == 0 {
        return None;
    }
    let mut j: usize = from - 1;
    let mut depth: usize = 1;
    loop
        invariant
            j <= from - 1,
            from < prog.len(),
            1 <= depth <= from - j,
            scan_bwd(prog@, from as int - 1, 1) == scan_bwd(prog@, j as int, depth as int),
        decreases j,
    {
        let c = prog[j];
        if c == '[' && depth == 1 {
            return Some(j);
        }
        let ghost dnew: int = if c == ']' {
            depth + 1
        } else if c == '[' {
            depth - 1
        } else {
            depth as int
        };
        proof {
            assert(scan_bwd(prog@, j as int, depth as int) == scan_bwd(prog@, j as int - 1, dnew));
        }
        if j == 0 {
            proof {
                assert(scan_bwd(prog@, -1, dnew) is None);
            }
            return None;
        }
        if c == ']' {
            depth = depth + 1;
        } else if c == '[' {
            depth = depth - 1;
        }
        j = j - 1;
    }
}

} // verus!
