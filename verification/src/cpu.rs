//! The interpreter front end: an instance that owns the program text and
//! the state surviving a run, and a run-to-completion entry point over
//! the verified machine.

use vstd::prelude::*;

use vstd::slice::slice_to_vec;
use vstd::utf8::encode_utf8;

use crate::machine::Machine;
use crate::semantics::{init_state, outcome_state, run_n, Config, MState, Outcome, VmError};

verus! {

/// How many opcode steps [`Cpu::run`] is willing to take before giving
/// up with [`VmError::StepLimitExceeded`]. A driver that needs a truly
/// unbounded run single-steps a [`Machine`] instead.
pub const RUN_BUDGET: u64 = u64::MAX;

/// The characters of `bs`: each byte becomes the character with its value.
pub open spec fn bytes_as_chars(bs: Seq<u8>) -> Seq<char> {
    bs.map(|i: int, b: u8| b as char)
}

/// The bytes `,` draws from: the UTF-8 bytes of the pre-supplied input
/// string, or nothing when none was supplied.
pub open spec fn input_bytes(input: Option<String>) -> Seq<u8> {
    match input {
        Some(s) => encode_utf8(s@),
        None => Seq::empty(),
    }
}

/// An interpreter instance: the program text plus the per-run
/// configuration and the state that survives a run.
pub struct Cpu {
    /// The program text ("feed").
    pub feed_tape: String,
    /// Index of the currently active tape cell.
    pub data_pointer: usize,
    /// Bytes emitted by `.`, accumulated as characters.
    pub output: String,
    /// Number of cells on the tape.
    pub tape_size: usize,
    /// When set, a driver is expected to release the whole output once at
    /// the end of the run rather than streaming it as it appears.
    pub one_shot_output: bool,
    /// Extended-instruction capability level (0-3).
    pub level: u8,
    /// Scratch register used by the extended instruction tiers.
    pub storage: u8,
}

/// The configuration a run of `cpu` executes under.
pub open spec fn run_cfg(cpu: Cpu, input: Option<String>) -> Config {
    Config { prog: cpu.feed_tape@, level: cpu.level, input: input_bytes(input) }
}

/// The state a run of `cpu` starts from: a zeroed tape, with the data
/// pointer and storage register carried over from the instance.
pub open spec fn run_start(cpu: Cpu) -> MState {
    init_state(cpu.tape_size as nat, cpu.data_pointer as int, cpu.storage)
}

impl Cpu {
    /// Builds an interpreter over `feed_tape` with an all-zero starting state.
    pub fn new(feed_tape: String, tape_size: usize, level: u8) -> (cpu: Cpu)
        ensures
            cpu.feed_tape == feed_tape,
            cpu.data_pointer == 0,
            cpu.output@ == Seq::<char>::empty(),
            cpu.tape_size == tape_size,
            cpu.one_shot_output == false,
            cpu.level == level,
            cpu.storage == 0,
    {
        Cpu {
            feed_tape,
            data_pointer: 0,
            output: String::new(),
            tape_size,
            one_shot_output: false,
            level,
            storage: 0,
        }
    }

    /// Runs the program against a fresh zeroed tape of `tape_size` cells
    /// until it completes, a fatal error stops it, or the step budget
    /// runs out. The bytes it emits are appended to `self.output` as
    /// characters; the data pointer and the storage register keep their
    /// final values for a subsequent run.
    ///
    /// Where the instruction set leaves a policy open, this engine
    /// commits to: the data pointer clamps silently at both tape edges;
    /// output is always accumulated (a driver that wants to stream it
    /// single-steps a [`Machine`] instead); `,` past the end of the
    /// pre-supplied input — in particular any `,` when `input` is `None`
    /// — is the fatal [`VmError::InputExhausted`].
    pub fn run(&mut self, input: Option<String>) -> (r: Result<(), VmError>)
        requires
            old(self).tape_size >= 1,
            old(self).data_pointer < old(self).tape_size,
        ensures
            final(self).feed_tape == old(self).feed_tape,
            final(self).tape_size == old(self).tape_size,
            final(self).level == old(self).level,
            final(self).one_shot_output == old(self).one_shot_output,
            final(self).data_pointer < final(self).tape_size,
            ({
                let end = outcome_state(
                    run_n(run_cfg(*old(self), input), run_start(*old(self)), RUN_BUDGET as nat),
                );
                &&& final(self).output@ == old(self).output@ + bytes_as_chars(end.out)
                &&& final(self).data_pointer == end.dp
                &&& final(self).storage == end.storage
            }),
            match run_n(run_cfg(*old(self), input), run_start(*old(self)), RUN_BUDGET as nat) {
                Outcome::Done(_) => r is Ok,
                Outcome::Failed(_, e) => r == Result::<(), VmError>::Err(e),
                Outcome::Running(_) => r == Result::<(), VmError>::Err(
                    VmError::StepLimitExceeded,
                ),
            },
    {
        let prog = chars_of(self.feed_tape.as_str());
        let in_bytes: Vec<u8> = match &input {
            Some(s) => slice_to_vec(s.as_str().as_bytes()),
            None => Vec::new(),
        };
        proof {
            assert(in_bytes@ =~= input_bytes(input));
        }
        let mut m = Machine::new(
            prog,
            self.tape_size,
            self.level,
            in_bytes,
            self.data_pointer,
            self.storage,
        );
        let res = m.run_for(RUN_BUDGET);
        proof {
            crate::semantics::lemma_run_n_dims(
                run_cfg(*old(self), input),
                run_start(*old(self)),
                RUN_BUDGET as nat,
            );
        }
        let mut i: usize = 0;
        while i < m.out.len()
            invariant
                i <= m.out.len(),
                self.output@ == old(self).output@ + bytes_as_chars(m.out@.take(i as int)),
                self.feed_tape == old(self).feed_tape,
                self.tape_size == old(self).tape_size,
                self.level == old(self).level,
                self.one_shot_output == old(self).one_shot_output,
                self.data_pointer == old(self).data_pointer,
                self.storage == old(self).storage,
            decreases m.out.len() - i,
        {
            let b = m.out[i];
            push_char(&mut self.output, b as char);
            i = i + 1;
            proof {
                assert(m.out@.take(i as int) =~= m.out@.take(i - 1).push(m.out@[i - 1]));
                assert(bytes_as_chars(m.out@.take(i as int)) =~= bytes_as_chars(
                    m.out@.take(i - 1),
                ).push(m.out@[i - 1] as char));
            }
        }
        proof {
            assert(m.out@.take(m.out@.len() as int) =~= m.out@);
        }
        self.data_pointer = m.dp;
        self.storage = m.storage;
        match res {
            Ok(true) => Ok(()),
            Ok(false) => Err(VmError::StepLimitExceeded),
            Err(e) => Err(e),
        }
    }
}

/// Decodes the program text into one character per opcode position, so
/// that every instruction step is an indexed access.
fn chars_of(s: &str) -> (r: Vec<char>)
    ensures
        r@ == s@,
{
    let mut r: Vec<char> = Vec::new();
    for c in it: s.chars()
        invariant
            r@ == it.seq().take(it.index()),
    {
        r.push(c);
    }
    proof {
        assert(r@ =~= s@);
    }
    r
}

/// Relies on `String::push`: appends exactly the one character `c` to
/// the end of `s`.
#[verifier::external_body]
fn push_char(s: &mut String, c: char)
    ensures
        final(s)@ == old(s)@.push(c),
{
    s.push(c);
}

} // verus!
