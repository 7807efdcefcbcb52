//! Properties of the execution semantics, stated and proved once over
//! the model that every executable function's contract speaks of.

use vstd::prelude::*;

use vstd::arithmetic::div_mod::lemma_add_mod_noop;

use crate::semantics::{
    advance, cell, is_terminal, is_tier1, is_tier2, is_tier3, lemma_outcome_unique, outcome_state,
    run_n, scan_bwd, scan_fwd, step, wadd, Config, MState, Outcome, StepResult, VmError,
};

verus! {

/// Determinism: two runs of the same program under the same
/// configuration from the same starting state settle on the same
/// outcome — final state, error and output included — no matter how much
/// fuel either run is given.
pub proof fn lemma_deterministic(cfg: Config, s: MState, n1: nat, n2: nat)
    requires
        !(run_n(cfg, s, n1) is Running),
        !(run_n(cfg, s, n2) is Running),
    ensures
        run_n(cfg, s, n1) == run_n(cfg, s, n2),
        outcome_state(run_n(cfg, s, n1)).out == outcome_state(run_n(cfg, s, n2)).out,
{
    lemma_outcome_unique(cfg, s, n1, n2);
}

/// Capability gating: an opcode belonging to a tier above the active
/// level is a pure no-op — tape, data pointer, storage, input position
/// and output are exactly what they were; only the instruction pointer
/// moves past it.
pub proof fn lemma_gated_opcode_is_noop(cfg: Config, s: MState)
    requires
        !is_terminal(cfg, s),
        ({
            let c = cfg.prog[s.ip];
            ||| (is_tier1(c) && cfg.level < 1)
            ||| (is_tier2(c) && cfg.level < 2)
            ||| (is_tier3(c) && cfg.level < 3)
        }),
    ensures
        step(cfg, s) == StepResult::Next(advance(s)),
{
}

/// Division or remainder by a zero storage register is never fatal: the
/// target cell — and everything else — is left unchanged, and execution
/// moves on.
pub proof fn lemma_div_by_zero_is_noop(cfg: Config, s: MState)
    requires
        !is_terminal(cfg, s),
        cfg.prog[s.ip] == '/' || cfg.prog[s.ip] == '%',
        cfg.level >= 2,
        s.storage == 0,
    ensures
        step(cfg, s) == StepResult::Next(advance(s)),
{
}

/// After `n` steps through a program made of `+` alone, the active cell
/// holds its starting value plus `n`, modulo 256, and nothing else has
/// changed but the instruction pointer.
pub proof fn lemma_plus_run(cfg: Config, s: MState, n: nat)
    requires
        0 <= s.dp < s.tape.len(),
        !s.halted,
        s.ip == 0,
        forall|i: int| 0 <= i < cfg.prog.len() ==> cfg.prog[i] == '+',
        n <= cfg.prog.len(),
    ensures
        run_n(cfg, s, n) is Running <==> n < cfg.prog.len(),
        run_n(cfg, s, n) is Done <==> n == cfg.prog.len(),
        ({
            let t = outcome_state(run_n(cfg, s, n));
            &&& t.ip == n
            &&& t.dp == s.dp
            &&& t.tape =~= s.tape.update(s.dp, ((cell(s) + n) % 256) as u8)
            &&& t.storage == s.storage
            &&& t.out == s.out
            &&& t.in_idx == s.in_idx
            &&& !t.halted
        }),
    decreases n,
{
    if n == 0 {
        assert(s.tape =~= s.tape.update(s.dp, ((cell(s) + 0) % 256) as u8));
    } else {
        lemma_plus_run(cfg, s, (n - 1) as nat);
        let t = outcome_state(run_n(cfg, s, (n - 1) as nat));
        assert(cell(t) == ((cell(s) + (n - 1)) % 256) as u8);
        lemma_add_mod_noop(cell(s) + (n - 1), 1, 256);
        assert(wadd(cell(t), 1) == ((cell(s) + n) % 256) as u8);
        let u = outcome_state(run_n(cfg, s, n));
        assert(u.tape =~= s.tape.update(s.dp, ((cell(s) + n) % 256) as u8));
    }
}

/// Cell arithmetic wraps modulo 256: a program of 256 `+` opcodes run on
/// a cell leaves the cell exactly where it started — in particular, at 0
/// when it started at 0.
pub proof fn lemma_plus_256_wraps_around(cfg: Config, s: MState)
    requires
        0 <= s.dp < s.tape.len(),
        !s.halted,
        s.ip == 0,
        cfg.prog.len() == 256,
        forall|i: int| 0 <= i < cfg.prog.len() ==> cfg.prog[i] == '+',
    ensures
        run_n(cfg, s, 256) is Done,
        cell(outcome_state(run_n(cfg, s, 256))) == cell(s),
{
    lemma_plus_run(cfg, s, 256);
    let t = outcome_state(run_n(cfg, s, 256));
    assert(cell(t) == ((cell(s) + 256) % 256) as u8);
    lemma_add_mod_noop(cell(s) as int, 256, 256);
}

/// Cell arithmetic wraps modulo 256 downward as well: one `-` on a zero
/// cell leaves it at 255.
pub proof fn lemma_minus_wraps_to_255(cfg: Config, s: MState)
    requires
        0 <= s.dp < s.tape.len(),
        !is_terminal(cfg, s),
        cfg.prog[s.ip] == '-',
        cell(s) == 0,
    ensures
        step(cfg, s) matches StepResult::Next(t) && cell(t) == 255,
{
}

/// The bracket contribution of one character: `[` opens, `]` closes,
/// everything else is neutral.
pub open spec fn bracket_delta(c: char) -> int {
    if c == '[' {
        1
    } else if c == ']' {
        -1
    } else {
        0
    }
}

/// The net bracket depth contributed by `prog[lo..hi)`.
pub open spec fn net_depth(prog: Seq<char>, lo: int, hi: int) -> int
    decreases hi - lo,
{
    if lo >= hi {
        0
    } else {
        net_depth(prog, lo, hi - 1) + bracket_delta(prog[hi - 1])
    }
}

/// `net_depth` can be peeled from the left as well as from the right.
proof fn lemma_net_unfold_left(prog: Seq<char>, lo: int, hi: int)
    requires
        lo < hi,
    ensures
        net_depth(prog, lo, hi) == bracket_delta(prog[lo]) + net_depth(prog, lo + 1, hi),
    decreases hi - lo,
{
    if lo + 1 < hi {
        lemma_net_unfold_left(prog, lo, hi - 1);
    } else {
        assert(net_depth(prog, lo, lo) == 0);
        assert(net_depth(prog, lo + 1, hi) == 0);
    }
}

/// `j` is the structural partner of the `[` at `p`: the first position
/// after `p` where the depth that `p` opened falls back to zero. This is
/// a property of the program text alone — no cell value, input or
/// capability level occurs in it.
pub open spec fn fwd_match(prog: Seq<char>, p: int, j: int) -> bool {
    &&& p < j < prog.len()
    &&& prog[j] == ']'
    &&& net_depth(prog, p + 1, j) == 0
    &&& forall|k: int| p + 1 <= k < j ==> #[trigger] net_depth(prog, p + 1, k) >= 0
}

/// `j` is the structural partner of the `]` at `p`: the nearest position
/// before `p` whose `[` closes exactly at `p`. As with `fwd_match`, a
/// property of the program text alone.
pub open spec fn bwd_match(prog: Seq<char>, p: int, j: int) -> bool {
    &&& 0 <= j < p
    &&& prog[j] == '['
    &&& net_depth(prog, j + 1, p) == 0
    &&& forall|k: int| j + 1 <= k <= p ==> #[trigger] net_depth(prog, k, p) <= 0
}

/// A `[` has at most one structural partner.
pub proof fn lemma_fwd_match_unique(prog: Seq<char>, p: int, j1: int, j2: int)
    requires
        fwd_match(prog, p, j1),
        fwd_match(prog, p, j2),
    ensures
        j1 == j2,
{
    if j1 < j2 {
        assert(net_depth(prog, p + 1, j1 + 1) == -1);
    } else if j2 < j1 {
        assert(net_depth(prog, p + 1, j2 + 1) == -1);
    }
}

/// A `]` has at most one structural partner.
pub proof fn lemma_bwd_match_unique(prog: Seq<char>, p: int, j1: int, j2: int)
    requires
        bwd_match(prog, p, j1),
        bwd_match(prog, p, j2),
    ensures
        j1 == j2,
{
    if j1 < j2 {
        lemma_net_unfold_left(prog, j2, p);
        assert(net_depth(prog, j2, p) == 1);
    } else if j2 < j1 {
        lemma_net_unfold_left(prog, j1, p);
        assert(net_depth(prog, j1, p) == 1);
    }
}

/// What a successful forward scan returns: a `]` at which the entry
/// depth `d` first falls to zero.
proof fn lemma_scan_fwd_sound(prog: Seq<char>, i: int, d: int)
    requires
        0 <= i,
        1 <= d,
    ensures
        scan_fwd(prog, i, d) matches Some(j) ==> {
            &&& i <= j < prog.len()
            &&& prog[j] == ']'
            &&& d + net_depth(prog, i, j) == 1
            &&& forall|k: int| i <= k <= j ==> d + #[trigger] net_depth(prog, i, k) >= 1
        },
    decreases prog.len() - i,
{
    if i < prog.len() && !(prog[i] == ']' && d == 1) {
        let d2 = d + bracket_delta(prog[i]);
        lemma_scan_fwd_sound(prog, i + 1, d2);
        match scan_fwd(prog, i + 1, d2) {
            Some(j) => {
                lemma_net_unfold_left(prog, i, j);
                assert forall|k: int| i <= k <= j implies d + #[trigger] net_depth(prog, i, k) >= 1 by {
                    if i < k {
                        lemma_net_unfold_left(prog, i, k);
                    }
                }
            },
            None => {},
        }
    }
}

/// A forward scan finds every structural partner that exists.
proof fn lemma_scan_fwd_complete(prog: Seq<char>, i: int, d: int, j: int)
    requires
        0 <= i <= j < prog.len(),
        1 <= d,
        prog[j] == ']',
        d + net_depth(prog, i, j) == 1,
        forall|k: int| i <= k <= j ==> d + #[trigger] net_depth(prog, i, k) >= 1,
    ensures
        scan_fwd(prog, i, d) == Some(j),
    decreases j - i,
{
    if prog[i] == ']' && d == 1 {
        if i < j {
            assert(net_depth(prog, i, i) == 0);
            assert(net_depth(prog, i, i + 1) == -1);
        }
    } else {
        assert(i < j) by {
            if i == j {
                assert(d + net_depth(prog, i, i) == 1);
            }
        }
        let d2 = d + bracket_delta(prog[i]);
        assert(net_depth(prog, i, i) == 0);
        assert(net_depth(prog, i, i + 1) == bracket_delta(prog[i]));
        lemma_net_unfold_left(prog, i, j);
        assert forall|k: int| i + 1 <= k <= j implies d2 + #[trigger] net_depth(prog, i + 1, k) >= 1 by {
            lemma_net_unfold_left(prog, i, k);
        }
        lemma_scan_fwd_complete(prog, i + 1, d2, j);
    }
}

/// What a successful backward scan returns: the `[` at which the entry
/// depth `d` first falls to zero, counted leftward from the anchor `p`.
proof fn lemma_scan_bwd_sound(prog: Seq<char>, i: int, d: int, p: int)
    requires
        -1 <= i,
        i < p <= prog.len(),
        1 <= d,
        d == 1 - net_depth(prog, i + 1, p),
        forall|k: int| i + 1 <= k <= p ==> #[trigger] net_depth(prog, k, p) <= 0,
    ensures
        scan_bwd(prog, i, d) matches Some(j) ==> {
            &&& 0 <= j <= i
            &&& prog[j] == '['
            &&& net_depth(prog, j + 1, p) == 0
            &&& forall|k: int| j + 1 <= k <= p ==> #[trigger] net_depth(prog, k, p) <= 0
        },
    decreases i + 1,
{
    if 0 <= i && !(prog[i] == '[' && d == 1) {
        let d2 = if prog[i] == ']' {
            d + 1
        } else if prog[i] == '[' {
            d - 1
        } else {
            d
        };
        lemma_net_unfold_left(prog, i, p);
        assert(d2 == 1 - net_depth(prog, i, p));
        if d2 >= 1 {
            lemma_scan_bwd_sound(prog, i - 1, d2, p);
        } else {
            assert(net_depth(prog, i, p) <= 0);
            assert(false);
        }
    }
}

/// A backward scan finds every structural partner that exists.
proof fn lemma_scan_bwd_complete(prog: Seq<char>, i: int, d: int, p: int, j: int)
    requires
        0 <= j <= i,
        i < p <= prog.len(),
        1 <= d,
        d == 1 - net_depth(prog, i + 1, p),
        prog[j] == '[',
        net_depth(prog, j + 1, p) == 0,
        forall|k: int| j + 1 <= k <= p ==> #[trigger] net_depth(prog, k, p) <= 0,
    ensures
        scan_bwd(prog, i, d) == Some(j),
    decreases i - j,
{
    if prog[i] == '[' && d == 1 {
        if j < i {
            lemma_net_unfold_left(prog, i, p);
            assert(net_depth(prog, i, p) == 1);
        }
    } else {
        assert(j < i) by {
            if j == i {
                assert(d == 1 - net_depth(prog, i + 1, p));
            }
        }
        let d2 = if prog[i] == ']' {
            d + 1
        } else if prog[i] == '[' {
            d - 1
        } else {
            d
        };
        lemma_net_unfold_left(prog, i, p);
        assert(d2 == 1 - net_depth(prog, i, p));
        assert(net_depth(prog, i, p) <= 0);
        lemma_scan_bwd_complete(prog, i - 1, d2, p, j);
    }
}

/// Bracket matching is structural, forward: when a `[` with a zero cell
/// must jump, it lands immediately after the unique structural partner,
/// and where no partner exists the step is exactly the fatal
/// `MalformedProgram` — never an out-of-range read.
pub proof fn lemma_open_bracket_jump(cfg: Config, s: MState)
    requires
        0 <= s.ip,
        !is_terminal(cfg, s),
        cfg.prog[s.ip] == '[',
        cell(s) == 0,
    ensures
        forall|j: int| #[trigger] fwd_match(cfg.prog, s.ip, j) ==> step(cfg, s)
            == StepResult::Next(MState { ip: j + 1, ..s }),
        (forall|j: int| !(#[trigger] fwd_match(cfg.prog, s.ip, j))) ==> step(cfg, s)
            == StepResult::Fatal(VmError::MalformedProgram),
{
    let prog = cfg.prog;
    let p = s.ip;
    lemma_scan_fwd_sound(prog, p + 1, 1);
    match scan_fwd(prog, p + 1, 1) {
        Some(j0) => {
            assert(fwd_match(prog, p, j0));
            assert forall|j: int| #[trigger] fwd_match(prog, p, j) implies step(cfg, s)
                == StepResult::Next(MState { ip: j + 1, ..s }) by {
                lemma_fwd_match_unique(prog, p, j, j0);
            }
        },
        None => {
            assert forall|j: int| !(#[trigger] fwd_match(prog, p, j)) by {
                if fwd_match(prog, p, j) {
                    lemma_scan_fwd_complete(prog, p + 1, 1, j);
                }
            }
        },
    }
}

/// Bracket matching is structural, backward: when a `]` with a nonzero
/// cell must jump, it lands immediately after the unique structural
/// partner, and where no partner exists the step is exactly the fatal
/// `MalformedProgram` — never an out-of-range read.
pub proof fn lemma_close_bracket_jump(cfg: Config, s: MState)
    requires
        0 <= s.ip,
        !is_terminal(cfg, s),
        cfg.prog[s.ip] == ']',
        cell(s) != 0,
    ensures
        forall|j: int| #[trigger] bwd_match(cfg.prog, s.ip, j) ==> step(cfg, s)
            == StepResult::Next(MState { ip: j + 1, ..s }),
        (forall|j: int| !(#[trigger] bwd_match(cfg.prog, s.ip, j))) ==> step(cfg, s)
            == StepResult::Fatal(VmError::MalformedProgram),
{
    let prog = cfg.prog;
    let p = s.ip;
    lemma_scan_bwd_sound(prog, p - 1, 1, p);
    match scan_bwd(prog, p - 1, 1) {
        Some(j0) => {
            assert(bwd_match(prog, p, j0));
            assert forall|j: int| #[trigger] bwd_match(prog, p, j) implies step(cfg, s)
                == StepResult::Next(MState { ip: j + 1, ..s }) by {
                lemma_bwd_match_unique(prog, p, j, j0);
            }
        },
        None => {
            assert forall|j: int| !(#[trigger] bwd_match(prog, p, j)) by {
                if bwd_match(prog, p, j) {
                    lemma_scan_bwd_complete(prog, p - 1, 1, p, j);
                }
            }
        },
    }
}

/// Partnering is symmetric: the `]` that a `[` jumps to jumps back to
/// that same `[`, so a loop body always re-enters right after its own
/// opening bracket.
pub proof fn lemma_match_symmetric(prog: Seq<char>, p: int, j: int)
    requires
        0 <= p < prog.len(),
        j < prog.len(),
        prog[p] == '[',
        prog[j] == ']',
    ensures
        fwd_match(prog, p, j) <==> bwd_match(prog, j, p),
{
    if fwd_match(prog, p, j) {
        assert forall|k: int| p + 1 <= k <= j implies #[trigger] net_depth(prog, k, j) <= 0 by {
            lemma_net_split(prog, p + 1, k, j);
        }
        assert(bwd_match(prog, j, p));
    }
    if bwd_match(prog, j, p) {
        assert forall|k: int| p + 1 <= k < j implies #[trigger] net_depth(prog, p + 1, k) >= 0 by {
            lemma_net_split(prog, p + 1, k, j);
        }
        assert(fwd_match(prog, p, j));
    }
}

/// The classic well-bracketed condition: every prefix opens at least as
/// many brackets as it closes, and the whole program closes them all.
pub open spec fn balanced(prog: Seq<char>) -> bool {
    &&& net_depth(prog, 0, prog.len() as int) == 0
    &&& forall|k: int| 0 <= k <= prog.len() ==> #[trigger] net_depth(prog, 0, k) >= 0
}

/// Depth over an interval splits at any interior point.
proof fn lemma_net_split(prog: Seq<char>, a: int, b: int, c: int)
    requires
        a <= b <= c,
    ensures
        net_depth(prog, a, c) == net_depth(prog, a, b) + net_depth(prog, b, c),
    decreases c - b,
{
    if b == c {
        assert(net_depth(prog, b, c) == 0);
    } else {
        lemma_net_split(prog, a, b, c - 1);
    }
}

/// An interval whose net depth is negative has a first `]` at which the
/// running depth drops below zero.
proof fn lemma_first_drop(prog: Seq<char>, lo: int, hi: int)
    requires
        0 <= lo <= hi <= prog.len(),
        net_depth(prog, lo, hi) < 0,
    ensures
        exists|j: int|
            {
                &&& lo <= j < hi
                &&& prog[j] == ']'
                &&& #[trigger] net_depth(prog, lo, j) == 0
                &&& forall|k: int| lo <= k < j ==> #[trigger] net_depth(prog, lo, k) >= 0
            },
    decreases hi - lo,
{
    assert(net_depth(prog, lo, lo) == 0);
    if net_depth(prog, lo, hi - 1) < 0 {
        lemma_first_drop(prog, lo, hi - 1);
        let j = choose|j: int|
            {
                &&& lo <= j < hi - 1
                &&& prog[j] == ']'
                &&& #[trigger] net_depth(prog, lo, j) == 0
                &&& forall|k: int| lo <= k < j ==> #[trigger] net_depth(prog, lo, k) >= 0
            };
        assert(net_depth(prog, lo, j) == 0);
    } else {
        assert(prog[hi - 1] == ']');
        assert(net_depth(prog, lo, hi - 1) == 0);
        if exists|k: int| lo <= k < hi - 1 && #[trigger] net_depth(prog, lo, k) < 0 {
            let k = choose|k: int| lo <= k < hi - 1 && #[trigger] net_depth(prog, lo, k) < 0;
            lemma_first_drop(prog, lo, k);
            let j = choose|j: int|
                {
                    &&& lo <= j < k
                    &&& prog[j] == ']'
                    &&& #[trigger] net_depth(prog, lo, j) == 0
                    &&& forall|m: int| lo <= m < j ==> #[trigger] net_depth(prog, lo, m) >= 0
                };
            assert(net_depth(prog, lo, j) == 0);
        } else {
            assert(net_depth(prog, lo, hi - 1) == 0);
        }
    }
}

/// An interval whose net depth is positive has a last `[` at which the
/// depth, counted from the right edge, first rises above zero.
proof fn lemma_last_rise(prog: Seq<char>, lo: int, hi: int)
    requires
        0 <= lo <= hi <= prog.len(),
        net_depth(prog, lo, hi) >= 1,
    ensures
        exists|j: int|
            {
                &&& lo <= j < hi
                &&& prog[j] == '['
                &&& #[trigger] net_depth(prog, j + 1, hi) == 0
                &&& forall|k: int| j < k <= hi ==> #[trigger] net_depth(prog, k, hi) <= 0
            },
    decreases hi - lo,
{
    assert(net_depth(prog, hi, hi) == 0);
    lemma_net_unfold_left(prog, lo, hi);
    if net_depth(prog, lo + 1, hi) >= 1 {
        lemma_last_rise(prog, lo + 1, hi);
    } else {
        assert(prog[lo] == '[');
        assert(net_depth(prog, lo + 1, hi) == 0);
        if exists|k: int| lo < k <= hi && #[trigger] net_depth(prog, k, hi) >= 1 {
            let k = choose|k: int| lo < k <= hi && #[trigger] net_depth(prog, k, hi) >= 1;
            lemma_last_rise(prog, k, hi);
        } else {
            assert(net_depth(prog, lo + 1, hi) == 0);
        }
    }
}

/// In a balanced program every `[` has a structural partner.
pub proof fn lemma_balanced_fwd_partner(prog: Seq<char>, p: int)
    requires
        balanced(prog),
        0 <= p < prog.len(),
        prog[p] == '[',
    ensures
        exists|j: int| #[trigger] fwd_match(prog, p, j),
{
    assert(net_depth(prog, 0, p) >= 0);
    assert(net_depth(prog, 0, p + 1) == net_depth(prog, 0, p) + 1);
    lemma_net_split(prog, 0, p + 1, prog.len() as int);
    lemma_first_drop(prog, p + 1, prog.len() as int);
    let j = choose|j: int|
        {
            &&& p + 1 <= j < prog.len()
            &&& prog[j] == ']'
            &&& #[trigger] net_depth(prog, p + 1, j) == 0
            &&& forall|k: int| p + 1 <= k < j ==> #[trigger] net_depth(prog, p + 1, k) >= 0
        };
    assert(fwd_match(prog, p, j));
}

/// In a balanced program every `]` has a structural partner.
pub proof fn lemma_balanced_bwd_partner(prog: Seq<char>, p: int)
    requires
        balanced(prog),
        0 <= p < prog.len(),
        prog[p] == ']',
    ensures
        exists|j: int| #[trigger] bwd_match(prog, p, j),
{
    assert(net_depth(prog, 0, p + 1) == net_depth(prog, 0, p) - 1);
    assert(net_depth(prog, 0, p + 1) >= 0);
    lemma_last_rise(prog, 0, p);
    let j = choose|j: int|
        {
            &&& 0 <= j < p
            &&& prog[j] == '['
            &&& #[trigger] net_depth(prog, j + 1, p) == 0
            &&& forall|k: int| j < k <= p ==> #[trigger] net_depth(prog, k, p) <= 0
        };
    assert(bwd_match(prog, p, j));
}

/// A single step of a balanced program is never the fatal
/// `MalformedProgram`: whichever bracket has to jump finds its partner.
pub proof fn lemma_balanced_step_not_malformed(cfg: Config, s: MState)
    requires
        balanced(cfg.prog),
        0 <= s.ip,
        !is_terminal(cfg, s),
    ensures
        step(cfg, s) != StepResult::Fatal(VmError::MalformedProgram),
{
    let c = cfg.prog[s.ip];
    if c == '[' && cell(s) == 0 {
        lemma_balanced_fwd_partner(cfg.prog, s.ip);
        let j = choose|j: int| #[trigger] fwd_match(cfg.prog, s.ip, j);
        lemma_open_bracket_jump(cfg, s);
    } else if c == ']' && cell(s) != 0 {
        lemma_balanced_bwd_partner(cfg.prog, s.ip);
        let j = choose|j: int| #[trigger] bwd_match(cfg.prog, s.ip, j);
        lemma_close_bracket_jump(cfg, s);
    }
}

/// A forward scan only ever lands inside the program, at or after where
/// it started.
proof fn lemma_scan_fwd_range(prog: Seq<char>, i: int, d: int)
    ensures
        scan_fwd(prog, i, d) matches Some(j) ==> i <= j < prog.len(),
    decreases prog.len() - i,
{
    if 0 <= i && i < prog.len() && !(prog[i] == ']' && d == 1) {
        let d2 = if prog[i] == '[' {
            d + 1
        } else if prog[i] == ']' {
            d - 1
        } else {
            d
        };
        lemma_scan_fwd_range(prog, i + 1, d2);
    }
}

/// A backward scan only ever lands inside the program, at or before
/// where it started.
proof fn lemma_scan_bwd_range(prog: Seq<char>, i: int, d: int)
    ensures
        scan_bwd(prog, i, d) matches Some(j) ==> 0 <= j <= i && j < prog.len(),
    decreases i + 1,
{
    if 0 <= i && i < prog.len() && !(prog[i] == '[' && d == 1) {
        let d2 = if prog[i] == ']' {
            d + 1
        } else if prog[i] == '[' {
            d - 1
        } else {
            d
        };
        lemma_scan_bwd_range(prog, i - 1, d2);
    }
}

/// A whole run of a balanced program never fails with
/// `MalformedProgram`, no matter how long it runs: unbalanced brackets
/// are the only source of that error.
pub proof fn lemma_balanced_run_never_malformed(cfg: Config, s: MState, n: nat)
    requires
        balanced(cfg.prog),
        0 <= s.ip,
    ensures
        0 <= outcome_state(run_n(cfg, s, n)).ip,
        !(run_n(cfg, s, n) matches Outcome::Failed(_, VmError::MalformedProgram)),
    decreases n,
{
    if n > 0 {
        lemma_balanced_run_never_malformed(cfg, s, (n - 1) as nat);
        match run_n(cfg, s, (n - 1) as nat) {
            Outcome::Running(t) => {
                lemma_balanced_step_not_malformed(cfg, t);
                lemma_scan_fwd_range(cfg.prog, t.ip + 1, 1);
                lemma_scan_bwd_range(cfg.prog, t.ip - 1, 1);
            },
            _ => {},
        }
    }
}

} // verus!
