//! Mathematical model of the interpreter: a small-step operational
//! semantics over a ghost machine state, plus a fuel-indexed iteration of
//! it. The executable interpreter is verified against `step` and `run_n`.

use vstd::prelude::*;

verus! {

/// A fatal execution error. Whatever output was accumulated before the
/// error remains in place; there is no partial-output recovery.
#[derive(Debug, PartialEq, Eq, Structural, Clone, Copy)]
pub enum VmError {
    /// A bracket jump scanned off either end of the program: the `[` or `]`
    /// that had to jump has no partner.
    MalformedProgram,
    /// `,` executed with the pre-supplied input exhausted (or absent).
    InputExhausted,
    /// A run-to-completion call took more opcode steps than its budget.
    /// A driver that needs a truly unbounded run single-steps the
    /// machine itself, which has no budget.
    StepLimitExceeded,
}

/// The configuration of one run: the decoded program, the capability
/// level gating the extended instruction tiers, and the pre-supplied
/// input bytes consumed by `,`.
pub ghost struct Config {
    pub prog: Seq<char>,
    pub level: u8,
    pub input: Seq<u8>,
}

/// The machine state between two steps.
pub ghost struct MState {
    /// Instruction pointer: an index into the program, `0..=prog.len()`.
    pub ip: int,
    /// Data pointer: the index of the active tape cell.
    pub dp: int,
    /// The tape cells.
    pub tape: Seq<u8>,
    /// Scratch register used by the extended instruction tiers.
    pub storage: u8,
    /// How many pre-supplied input bytes have been consumed.
    pub in_idx: int,
    /// Bytes emitted by `.` so far.
    pub out: Seq<u8>,
    /// Set by `@` (tier 1): execution stopped early and cleanly.
    pub halted: bool,
}

/// The state a run starts from: instruction pointer at the first opcode,
/// a zeroed tape of `tape_len` cells, no output, no input consumed. The
/// data pointer and the storage register are carried in from the owning
/// interpreter instance.
pub open spec fn init_state(tape_len: nat, dp: int, storage: u8) -> MState {
    MState {
        ip: 0,
        dp: dp,
        tape: Seq::new(tape_len, |i: int| 0u8),
        storage: storage,
        in_idx: 0,
        out: Seq::empty(),
        halted: false,
    }
}

/// Tier-1 opcodes: halt, storage moves, shifts, bitwise operations.
pub open spec fn is_tier1(c: char) -> bool {
    c == '@' || c == '$' || c == '!' || c == '}' || c == '{' || c == '~' || c == '^' || c == '&'
        || c == '|'
}

/// Tier-2 opcodes: arithmetic against the storage register, plus the
/// reserved `?`, `(`, `)`.
pub open spec fn is_tier2(c: char) -> bool {
    c == '?' || c == '(' || c == ')' || c == '*' || c == '/' || c == '=' || c == '_' || c == '%'
}

/// Tier-3 opcodes: all reserved, with no semantics defined yet.
pub open spec fn is_tier3(c: char) -> bool {
    c == 'X' || c == 'x' || c == 'M' || c == 'm' || c == 'L' || c == 'l' || c == ':' || c == '#'
        || ('0' <= c && c <= '9') || ('A' <= c && c <= 'F')
}

/// An opcode that is claimed by its tier but deliberately left without a
/// semantics: it must act as an explicit no-op, never a silent wrong result.
pub open spec fn is_reserved(c: char) -> bool {
    c == '?' || c == '(' || c == ')' || is_tier3(c)
}

/// Addition wrapping modulo 256.
pub open spec fn wadd(a: u8, b: u8) -> u8 {
    ((a + b) % 256) as u8
}

/// Subtraction wrapping modulo 256.
pub open spec fn wsub(a: u8, b: u8) -> u8 {
    ((a - b + 256) % 256) as u8
}

/// Multiplication wrapping modulo 256.
pub open spec fn wmul(a: u8, b: u8) -> u8 {
    ((a * b) % 256) as u8
}

/// Left shift by one bit (the top bit is discarded).
pub open spec fn shl1(a: u8) -> u8 {
    ((a * 2) % 256) as u8
}

/// Right shift by one bit.
pub open spec fn shr1(a: u8) -> u8 {
    a / 2
}

/// The active tape cell.
pub open spec fn cell(s: MState) -> u8 {
    s.tape[s.dp]
}

/// The state after an opcode that only moves past itself.
pub open spec fn advance(s: MState) -> MState {
    MState { ip: s.ip + 1, ..s }
}

/// The state after writing `v` to the active cell and moving on.
pub open spec fn set_cell(s: MState, v: u8) -> MState {
    MState { ip: s.ip + 1, tape: s.tape.update(s.dp, v), ..s }
}

/// Effect of an active tier-1 opcode `c` on state `s`.
pub open spec fn step_ext1(s: MState, c: char) -> MState {
    if c == '@' {
        MState { halted: true, ..s }
    } else if c == '$' {
        MState { ip: s.ip + 1, storage: cell(s), ..s }
    } else if c == '!' {
        set_cell(s, s.storage)
    } else if c == '}' {
        set_cell(s, shr1(cell(s)))
    } else if c == '{' {
        set_cell(s, shl1(cell(s)))
    } else if c == '~' {
        set_cell(s, !cell(s))
    } else if c == '^' {
        set_cell(s, cell(s) ^ s.storage)
    } else if c == '&' {
        set_cell(s, cell(s) & s.storage)
    } else {
        set_cell(s, cell(s) | s.storage)
    }
}

/// Effect of an active tier-2 opcode `c` on state `s`. Division and
/// remainder by a zero storage register are non-fatal: the cell is left
/// unchanged. The reserved `?`, `(`, `)` are explicit no-ops.
pub open spec fn step_ext2(s: MState, c: char) -> MState {
    if c == '*' {
        set_cell(s, wmul(cell(s), s.storage))
    } else if c == '/' {
        if s.storage == 0 {
            advance(s)
        } else {
            set_cell(s, cell(s) / s.storage)
        }
    } else if c == '=' {
        set_cell(s, wadd(cell(s), s.storage))
    } else if c == '_' {
        set_cell(s, wsub(cell(s), s.storage))
    } else if c == '%' {
        if s.storage == 0 {
            advance(s)
        } else {
            set_cell(s, cell(s) % s.storage)
        }
    } else {
        advance(s)
    }
}

/// Scans forward from position `i` for the `]` that brings the bracket
/// depth from `depth` down to zero; `None` means the scan ran off the end
/// of the program.
pub open spec fn scan_fwd(prog: Seq<char>, i: int, depth: int) -> Option<int>
    decreases prog.len() - i,
{
    if i < 0 || i >= prog.len() {
        None
    } else if prog[i] == ']' && depth == 1 {
        Some(i)
    } else {
        let d = if prog[i] == '[' {
            depth + 1
        } else if prog[i] == ']' {
            depth - 1
        } else {
            depth
        };
        scan_fwd(prog, i + 1, d)
    }
}

/// Scans backward from position `i` for the `[` that brings the bracket
/// depth from `depth` down to zero; `None` means the scan ran off the
/// front of the program.
pub open spec fn scan_bwd(prog: Seq<char>, i: int, depth: int) -> Option<int>
    decreases i + 1,
{
    if i < 0 || i >= prog.len() {
        None
    } else if prog[i] == '[' && depth == 1 {
        Some(i)
    } else {
        let d = if prog[i] == ']' {
            depth + 1
        } else if prog[i] == '[' {
            depth - 1
        } else {
            depth
        };
        scan_bwd(prog, i - 1, d)
    }
}

/// What one step produces: either the next state, or a fatal error
/// raised at the current state.
pub ghost enum StepResult {
    Next(MState),
    Fatal(VmError),
}

/// One step of the interpreter at a non-terminal state: dispatch on the
/// opcode under the instruction pointer. Data-pointer movement clamps at
/// both tape boundaries. An opcode of an inactive tier, a reserved
/// opcode, and any unclaimed character are no-ops that move past
/// themselves.
pub open spec fn step(cfg: Config, s: MState) -> StepResult {
    let c = cfg.prog[s.ip];
    if c == '>' {
        StepResult::Next(
            MState { ip: s.ip + 1, dp: if s.dp + 1 < s.tape.len() { s.dp + 1 } else { s.dp }, ..s },
        )
    } else if c == '<' {
        StepResult::Next(
            MState { ip: s.ip + 1, dp: if s.dp == 0 { 0 as int } else { s.dp - 1 }, ..s },
        )
    } else if c == '+' {
        StepResult::Next(set_cell(s, wadd(cell(s), 1)))
    } else if c == '-' {
        StepResult::Next(set_cell(s, wsub(cell(s), 1)))
    } else if c == '.' {
        StepResult::Next(MState { ip: s.ip + 1, out: s.out.push(cell(s)), ..s })
    } else if c == ',' {
        if s.in_idx < cfg.input.len() {
            StepResult::Next(
                MState {
                    ip: s.ip + 1,
                    tape: s.tape.update(s.dp, cfg.input[s.in_idx]),
                    in_idx: s.in_idx + 1,
                    ..s
                },
            )
        } else {
            StepResult::Fatal(VmError::InputExhausted)
        }
    } else if c == '[' {
        if cell(s) == 0 {
            match scan_fwd(cfg.prog, s.ip + 1, 1) {
                Some(j) => StepResult::Next(MState { ip: j + 1, ..s }),
                None => StepResult::Fatal(VmError::MalformedProgram),
            }
        } else {
            StepResult::Next(advance(s))
        }
    } else if c == ']' {
        if cell(s) != 0 {
            match scan_bwd(cfg.prog, s.ip - 1, 1) {
                Some(j) => StepResult::Next(MState { ip: j + 1, ..s }),
                None => StepResult::Fatal(VmError::MalformedProgram),
            }
        } else {
            StepResult::Next(advance(s))
        }
    } else if is_tier1(c) {
        if cfg.level < 1 {
            StepResult::Next(advance(s))
        } else {
            StepResult::Next(step_ext1(s, c))
        }
    } else if is_tier2(c) {
        if cfg.level < 2 {
            StepResult::Next(advance(s))
        } else {
            StepResult::Next(step_ext2(s, c))
        }
    } else {
        StepResult::Next(advance(s))
    }
}

/// A state at which execution is over: `@` was executed, or the
/// instruction pointer reached the end of the program.
pub open spec fn is_terminal(cfg: Config, s: MState) -> bool {
    s.halted || s.ip >= cfg.prog.len()
}

/// Where a run can stand after some number of steps.
pub ghost enum Outcome {
    /// Not terminal yet; more steps to take.
    Running(MState),
    /// Execution completed cleanly in this state.
    Done(MState),
    /// A fatal error was raised at this state.
    Failed(MState, VmError),
}

/// Sorts a state into `Done` or `Running`.
pub open spec fn classify(cfg: Config, s: MState) -> Outcome {
    if is_terminal(cfg, s) {
        Outcome::Done(s)
    } else {
        Outcome::Running(s)
    }
}

/// The outcome after at most `n` steps from `s`: iterate `step` until it
/// reaches a terminal state or a fatal error, whichever comes first.
/// `Done` and `Failed` outcomes are absorbing.
pub open spec fn run_n(cfg: Config, s: MState, n: nat) -> Outcome
    decreases n,
{
    if n == 0 {
        classify(cfg, s)
    } else {
        match run_n(cfg, s, (n - 1) as nat) {
            Outcome::Running(t) => match step(cfg, t) {
                StepResult::Next(u) => classify(cfg, u),
                StepResult::Fatal(e) => Outcome::Failed(t, e),
            },
            o => o,
        }
    }
}

/// Once a run has settled (`Done` or `Failed`), more fuel changes nothing.
pub proof fn lemma_run_n_settled(cfg: Config, s: MState, n: nat, m: nat)
    requires
        n <= m,
        !(run_n(cfg, s, n) is Running),
    ensures
        run_n(cfg, s, m) == run_n(cfg, s, n),
    decreases m,
{
    if n < m {
        lemma_run_n_settled(cfg, s, n, (m - 1) as nat);
    }
}

/// A run settles in at most one way: any two fuels that settle agree,
/// outcome, final state and output included.
pub proof fn lemma_outcome_unique(cfg: Config, s: MState, n1: nat, n2: nat)
    requires
        !(run_n(cfg, s, n1) is Running),
        !(run_n(cfg, s, n2) is Running),
    ensures
        run_n(cfg, s, n1) == run_n(cfg, s, n2),
{
    if n1 <= n2 {
        lemma_run_n_settled(cfg, s, n1, n2);
    } else {
        lemma_run_n_settled(cfg, s, n2, n1);
    }
}

/// The state an outcome carries.
pub open spec fn outcome_state(o: Outcome) -> MState {
    match o {
        Outcome::Running(t) => t,
        Outcome::Done(t) => t,
        Outcome::Failed(t, _) => t,
    }
}

/// Running never changes the number of tape cells, and the data pointer
/// never leaves the tape: every opcode either clamps it at the edges or
/// leaves it alone.
pub proof fn lemma_run_n_dims(cfg: Config, s: MState, n: nat)
    requires
        0 <= s.dp < s.tape.len(),
    ensures
        outcome_state(run_n(cfg, s, n)).tape.len() == s.tape.len(),
        0 <= outcome_state(run_n(cfg, s, n)).dp < s.tape.len(),
    decreases n,
{
    if n > 0 {
        lemma_run_n_dims(cfg, s, (n - 1) as nat);
    }
}

} // verus!
