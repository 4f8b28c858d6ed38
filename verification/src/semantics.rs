//! What an IR1 program means: a tape of wrapping `i64` cells, a pointer that
//! must stay on its `BFCAP` cells, a byte input stream (whose end reads as 0)
//! and a byte output stream (which receives the low 8 bits of a cell). Loops
//! run while the current cell is not zero. The source program means the
//! same, one token at a time; lowering it to IR1 keeps that meaning.
use vstd::prelude::*;

use crate::bferror::RuntimeErrorV;
use crate::bfvm::BFCAP;
use crate::ir1::{
    flush_cell_spec, flush_ptr_spec, lower_node, lower_nodes, lower_run_spec, run_state,
    run_step, runs_fit, runs_fit_node, Ir1InstV,
};
use crate::lexer::Token;
use crate::parser::NodeV;

verus! {

/// The state an IR1 program runs on: the tape, the pointer, the input not
/// yet read and the output written so far.
pub struct BfState {
    pub tape: Seq<i64>,
    pub pos: int,
    pub input: Seq<u8>,
    pub output: Seq<u8>,
}

/// How running IR1 code ends.
pub enum Ir1Outcome {
    /// The code ran to its end, leaving this state.
    Done(BfState),
    /// In this state, a pointer move by the given amount would leave the tape.
    Trap(BfState, i64),
    /// A loop needed more iterations than the budget allowed.
    OutOfFuel,
}

/// The error that a pointer move by `delta` from `pos` off the tape reports.
pub open spec fn pointer_fault(pos: int, delta: i64) -> RuntimeErrorV {
    RuntimeErrorV::PtrOutOfBounds {
        current: pos as i64,
        delta: delta,
        attempted: (pos + delta) as i128,
        min: 0,
        max: (BFCAP - 1) as i128,
    }
}

/// Running instruction `i` from `s`, where every loop may iterate at most
/// `fuel` times at each level of nesting.
pub open spec fn exec_inst(i: Ir1InstV, s: BfState, fuel: nat) -> Ir1Outcome
    decreases fuel, i,
{
    match i {
        Ir1InstV::PtrMove(v) => {
            let a = s.pos + v;
            if a < 0 || a >= BFCAP {
                Ir1Outcome::Trap(s, v)
            } else {
                Ir1Outcome::Done(BfState { pos: a, ..s })
            }
        },
        Ir1InstV::CellAdd(v) => Ir1Outcome::Done(
            BfState { tape: s.tape.update(s.pos, s.tape[s.pos].wrapping_add(v)), ..s },
        ),
        Ir1InstV::Input => if s.input.len() > 0 {
            Ir1Outcome::Done(
                BfState {
                    tape: s.tape.update(s.pos, s.input[0] as i64),
                    input: s.input.drop_first(),
                    ..s
                },
            )
        } else {
            Ir1Outcome::Done(BfState { tape: s.tape.update(s.pos, 0), ..s })
        },
        Ir1InstV::Output => Ir1Outcome::Done(
            BfState { output: s.output.push(s.tape[s.pos] as u8), ..s },
        ),
        Ir1InstV::Loop(body) => exec_loop(body, s, fuel),
    }
}

/// Running a loop with body `body` from `s`: nothing when the current cell
/// is zero, else the body and then the loop again.
pub open spec fn exec_loop(body: Seq<Ir1InstV>, s: BfState, fuel: nat) -> Ir1Outcome
    decreases fuel, body,
{
    if s.tape[s.pos] == 0 {
        Ir1Outcome::Done(s)
    } else if fuel == 0 {
        Ir1Outcome::OutOfFuel
    } else {
        match exec_block(body, s, (fuel - 1) as nat) {
            Ir1Outcome::Done(s2) => exec_loop(body, s2, (fuel - 1) as nat),
            other => other,
        }
    }
}

/// Running the instructions of `b` in order from `s`, stopping at the first
/// that does not run to its end.
pub open spec fn exec_block(b: Seq<Ir1InstV>, s: BfState, fuel: nat) -> Ir1Outcome
    decreases fuel, b,
{
    if b.len() == 0 {
        Ir1Outcome::Done(s)
    } else {
        match exec_inst(b[0], s, fuel) {
            Ir1Outcome::Done(s2) => exec_block(b.subrange(1, b.len() as int), s2, fuel),
            other => other,
        }
    }
}

/// Whether state `s` is on a tape of `BFCAP` cells with its pointer on it.
pub open spec fn on_tape_state(s: BfState) -> bool {
    s.tape.len() == BFCAP && 0 <= s.pos < BFCAP
}

/// Running one source token from `s`: `>` and `<` move the pointer by one,
/// `+` and `-` add one and subtract one, `,` and `.` read and write a byte,
/// as the IR1 instructions of one unit do; any other token does nothing.
pub open spec fn exec_token(t: Token, s: BfState) -> Ir1Outcome {
    match t {
        Token::MOVR => exec_inst(Ir1InstV::PtrMove(1i64), s, 0),
        Token::MOVL => exec_inst(Ir1InstV::PtrMove(-1i64), s, 0),
        Token::INC => exec_inst(Ir1InstV::CellAdd(1i64), s, 0),
        Token::DEC => exec_inst(Ir1InstV::CellAdd(-1i64), s, 0),
        Token::INPUT => exec_inst(Ir1InstV::Input, s, 0),
        Token::OUTPUT => exec_inst(Ir1InstV::Output, s, 0),
        _ => Ir1Outcome::Done(s),
    }
}

/// Running the tokens of a run in order from `s`, stopping at the first that
/// does not run to its end.
pub open spec fn exec_run(ts: Seq<Token>, s: BfState) -> Ir1Outcome
    decreases ts.len(),
{
    if ts.len() == 0 {
        Ir1Outcome::Done(s)
    } else {
        match exec_run(ts.drop_last(), s) {
            Ir1Outcome::Done(s1) => exec_token(ts.last(), s1),
            other => other,
        }
    }
}

/// Running a node of the syntax tree from `s`, with loops bounded by `fuel`
/// as in [`exec_inst`].
pub open spec fn exec_node(n: NodeV, s: BfState, fuel: nat) -> Ir1Outcome
    decreases fuel, n,
{
    match n {
        NodeV::Run(ts) => exec_run(ts, s),
        NodeV::Loop(body) => exec_node_loop(body, s, fuel),
    }
}

/// Running a source loop with body `body` from `s`.
pub open spec fn exec_node_loop(body: Seq<NodeV>, s: BfState, fuel: nat) -> Ir1Outcome
    decreases fuel, body,
{
    if s.tape[s.pos] == 0 {
        Ir1Outcome::Done(s)
    } else if fuel == 0 {
        Ir1Outcome::OutOfFuel
    } else {
        match exec_nodes(body, s, (fuel - 1) as nat) {
            Ir1Outcome::Done(s2) => exec_node_loop(body, s2, (fuel - 1) as nat),
            other => other,
        }
    }
}

/// Running the nodes `ns` in order from `s`.
pub open spec fn exec_nodes(ns: Seq<NodeV>, s: BfState, fuel: nat) -> Ir1Outcome
    decreases fuel, ns,
{
    if ns.len() == 0 {
        Ir1Outcome::Done(s)
    } else {
        match exec_node(ns[0], s, fuel) {
            Ir1Outcome::Done(s2) => exec_nodes(ns.subrange(1, ns.len() as int), s2, fuel),
            other => other,
        }
    }
}

/// Running `a + b` runs `a`, then `b` from where `a` ended.
proof fn lemma_exec_concat(a: Seq<Ir1InstV>, b: Seq<Ir1InstV>, s: BfState, fuel: nat)
    ensures
        exec_block(a + b, s, fuel) == match exec_block(a, s, fuel) {
            Ir1Outcome::Done(s1) => exec_block(b, s1, fuel),
            other => other,
        },
    decreases a.len(),
{
    if a.len() > 0 {
        let t = a.subrange(1, a.len() as int);
        assert((a + b)[0] == a[0]);
        assert((a + b).subrange(1, (a + b).len() as int) =~= t + b);
        match exec_inst(a[0], s, fuel) {
            Ir1Outcome::Done(s1) => {
                lemma_exec_concat(t, b, s1, fuel);
            },
            _ => {},
        }
    } else {
        assert(a + b =~= b);
    }
}

/// Running `a` with `x` appended runs `a`, then `x`.
proof fn lemma_exec_push(a: Seq<Ir1InstV>, x: Ir1InstV, s: BfState, fuel: nat)
    ensures
        exec_block(a.push(x), s, fuel) == match exec_block(a, s, fuel) {
            Ir1Outcome::Done(s1) => exec_inst(x, s1, fuel),
            other => other,
        },
{
    lemma_exec_concat(a, seq![x], s, fuel);
    assert(a.push(x) =~= a + seq![x]);
    match exec_block(a, s, fuel) {
        Ir1Outcome::Done(s1) => {
            let one = seq![x];
            assert(one[0] == x);
            assert(one.subrange(1, one.len() as int) =~= Seq::<Ir1InstV>::empty());
            if let Ir1Outcome::Done(s2) = exec_inst(x, s1, fuel) {
                assert(exec_block(Seq::<Ir1InstV>::empty(), s2, fuel) == Ir1Outcome::Done(s2));
            }
        },
        _ => {},
    }
}

/// Adding `c` and then `d` with wrapping adds `c + d` with wrapping.
proof fn lemma_wrapping_add_twice(x: i64, c: i64, d: i64)
    requires
        i64::MIN <= c + d <= i64::MAX,
    ensures
        x.wrapping_add(c).wrapping_add(d) == x.wrapping_add((c + d) as i64),
{
}

pub(crate) proof fn lemma_run_state_bounds(ts: Seq<Token>)
    ensures
        -(ts.len() as int) <= run_state(ts).0 <= ts.len(),
        -(ts.len() as int) <= run_state(ts).1 <= ts.len(),
        run_state(ts).0 == 0 || run_state(ts).1 == 0,
    decreases ts.len(),
{
    if ts.len() > 0 {
        lemma_run_state_bounds(ts.drop_last());
    }
}

/// Whether the pending pointer move `p` or cell addition `c` (at most one of
/// them not zero) brings state `s0` to `s1`, both on the tape.
spec fn pending_ok(p: int, c: int, s0: BfState, s1: BfState) -> bool {
    &&& p == 0 || c == 0
    &&& on_tape_state(s0)
    &&& on_tape_state(s1)
    &&& s1.input == s0.input
    &&& s1.output == s0.output
    &&& s1.pos == s0.pos + p
    &&& s1.tape == (if c == 0 {
        s0.tape
    } else {
        s0.tape.update(s0.pos, s0.tape[s0.pos].wrapping_add(c as i64))
    })
}

/// Flushing the pending move and addition after `out` brings `s` to the
/// state they are pending for.
proof fn lemma_settle(out: Seq<Ir1InstV>, p: int, c: int, s: BfState, s0: BfState, s1: BfState, fuel: nat)
    requires
        exec_block(out, s, fuel) == Ir1Outcome::Done(s0),
        pending_ok(p, c, s0, s1),
        i64::MIN <= p <= i64::MAX,
        i64::MIN <= c <= i64::MAX,
    ensures
        exec_block(flush_cell_spec(flush_ptr_spec(out, p), c), s, fuel) == Ir1Outcome::Done(s1),
{
    if p != 0 {
        lemma_exec_push(out, Ir1InstV::PtrMove(p as i64), s, fuel);
        assert(BfState { pos: s0.pos + p, ..s0 } == s1);
    } else if c != 0 {
        lemma_exec_push(out, Ir1InstV::CellAdd(c as i64), s, fuel);
    } else {
        assert(s0 == s1);
    }
}

/// A run of tokens that runs to its end from `s` leaves the state that the
/// instructions lowering has emitted, followed by the pending move or
/// addition, lead to.
proof fn lemma_run(ts: Seq<Token>, s: BfState, fuel: nat)
    requires
        on_tape_state(s),
        ts.len() <= i64::MAX,
    ensures
        exec_run(ts, s) matches Ir1Outcome::Done(s1) ==> exec_block(run_state(ts).2, s, fuel) matches Ir1Outcome::Done(s0)
            && pending_ok(run_state(ts).0, run_state(ts).1, s0, s1),
    decreases ts.len(),
{
    if ts.len() == 0 {
        assert(exec_block(run_state(ts).2, s, fuel) == Ir1Outcome::Done(s));
    } else {
        let u = ts.drop_last();
        let t = ts.last();
        lemma_run(u, s, fuel);
        lemma_run_state_bounds(u);
        if let Ir1Outcome::Done(s1) = exec_run(u, s) {
            let (p, c, out) = run_state(u);
            let s0 = exec_block(out, s, fuel)->Done_0;
            assert(run_state(ts) == run_step((p, c, out), t));
            assert(exec_run(ts, s) == exec_token(t, s1));
            match t {
                Token::MOVR | Token::MOVL => {
                    if let Ir1Outcome::Done(s2) = exec_token(t, s1) {
                        if c != 0 {
                            lemma_exec_push(out, Ir1InstV::CellAdd(c as i64), s, fuel);
                        }
                    }
                },
                Token::INC | Token::DEC => {
                    let d: i64 = if t == Token::INC { 1i64 } else { -1i64 };
                    let s2 = exec_token(t, s1)->Done_0;
                    let pos = s1.pos;
                    let s0b = if p != 0 {
                        lemma_exec_push(out, Ir1InstV::PtrMove(p as i64), s, fuel);
                        BfState { pos: s0.pos + p, ..s0 }
                    } else {
                        s0
                    };
                    assert(exec_block(flush_ptr_spec(out, p), s, fuel) == Ir1Outcome::Done(s0b));
                    assert(s0b.pos == pos);
                    let x = s0b.tape[pos];
                    if c != 0 {
                        assert(s1.tape[pos] == x.wrapping_add(c as i64));
                        lemma_wrapping_add_twice(x, c as i64, d);
                        if c + d == 0 {
                            assert(s2.tape =~= s0b.tape);
                        } else {
                            assert(s2.tape =~= s0b.tape.update(pos, x.wrapping_add((c + d) as i64)));
                        }
                    } else {
                        assert(s2.tape =~= s0b.tape.update(pos, x.wrapping_add(d)));
                    }
                    assert(pending_ok(0, c + d, s0b, s2));
                },
                Token::INPUT | Token::OUTPUT => {
                    lemma_settle(out, p, c, s, s0, s1, fuel);
                    let i = if t == Token::INPUT { Ir1InstV::Input } else { Ir1InstV::Output };
                    lemma_exec_push(flush_cell_spec(flush_ptr_spec(out, p), c), i, s, fuel);
                    if let Ir1Outcome::Done(s2) = exec_token(t, s1) {
                        assert(pending_ok(0, 0, s2, s2));
                    }
                },
                _ => {},
            }
        }
    }
}

/// A run of tokens that runs to its end from `s` means what its lowering
/// means.
proof fn lemma_run_lowered(ts: Seq<Token>, s: BfState, fuel: nat)
    requires
        on_tape_state(s),
        ts.len() <= i64::MAX,
    ensures
        exec_run(ts, s) matches Ir1Outcome::Done(s1) ==> exec_block(lower_run_spec(ts), s, fuel)
            == Ir1Outcome::Done(s1) && on_tape_state(s1),
{
    lemma_run(ts, s, fuel);
    lemma_run_state_bounds(ts);
    if let Ir1Outcome::Done(s1) = exec_run(ts, s) {
        let (p, c, out) = run_state(ts);
        let s0 = exec_block(out, s, fuel)->Done_0;
        lemma_settle(out, p, c, s, s0, s1, fuel);
    }
}

/// A run of tokens never runs out of the loop budget: it holds no loop.
proof fn lemma_run_has_no_loop(ts: Seq<Token>, s: BfState)
    ensures
        !(exec_run(ts, s) is OutOfFuel),
    decreases ts.len(),
{
    if ts.len() > 0 {
        lemma_run_has_no_loop(ts.drop_last(), s);
    }
}

proof fn lemma_node(n: NodeV, s: BfState, fuel: nat)
    requires
        on_tape_state(s),
        lower_node(n) is Some,
        runs_fit_node(n),
    ensures
        exec_node(n, s, fuel) matches Ir1Outcome::Done(s1) ==> exec_block(lower_node(n).unwrap(), s, fuel)
            == Ir1Outcome::Done(s1) && on_tape_state(s1),
        exec_node(n, s, fuel) is OutOfFuel ==> exec_block(lower_node(n).unwrap(), s, fuel) is OutOfFuel,
    decreases fuel, n,
{
    match n {
        NodeV::Run(ts) => {
            lemma_run_lowered(ts, s, fuel);
            lemma_run_has_no_loop(ts, s);
        },
        NodeV::Loop(b) => {
            let x = lower_nodes(b).unwrap();
            lemma_node_loop(b, s, fuel);
            lemma_exec_push(Seq::<Ir1InstV>::empty(), Ir1InstV::Loop(x), s, fuel);
            assert(Seq::<Ir1InstV>::empty().push(Ir1InstV::Loop(x)) =~= seq![Ir1InstV::Loop(x)]);
            assert(exec_block(Seq::<Ir1InstV>::empty(), s, fuel) == Ir1Outcome::Done(s));
        },
    }
}

proof fn lemma_node_loop(b: Seq<NodeV>, s: BfState, fuel: nat)
    requires
        on_tape_state(s),
        lower_nodes(b) is Some,
        runs_fit(b),
    ensures
        exec_node_loop(b, s, fuel) matches Ir1Outcome::Done(s1) ==> exec_loop(lower_nodes(b).unwrap(), s, fuel)
            == Ir1Outcome::Done(s1) && on_tape_state(s1),
        exec_node_loop(b, s, fuel) is OutOfFuel ==> exec_loop(lower_nodes(b).unwrap(), s, fuel) is OutOfFuel,
    decreases fuel, b,
{
    if s.tape[s.pos] != 0 && fuel > 0 {
        lemma_nodes(b, s, (fuel - 1) as nat);
        if let Ir1Outcome::Done(s1) = exec_nodes(b, s, (fuel - 1) as nat) {
            lemma_node_loop(b, s1, (fuel - 1) as nat);
        }
    }
}

proof fn lemma_nodes(ns: Seq<NodeV>, s: BfState, fuel: nat)
    requires
        on_tape_state(s),
        lower_nodes(ns) is Some,
        runs_fit(ns),
    ensures
        exec_nodes(ns, s, fuel) matches Ir1Outcome::Done(s1) ==> exec_block(lower_nodes(ns).unwrap(), s, fuel)
            == Ir1Outcome::Done(s1) && on_tape_state(s1),
        exec_nodes(ns, s, fuel) is OutOfFuel ==> exec_block(lower_nodes(ns).unwrap(), s, fuel) is OutOfFuel,
    decreases fuel, ns,
{
    if ns.len() > 0 {
        let rest = ns.subrange(1, ns.len() as int);
        let a = lower_node(ns[0]).unwrap();
        let b = lower_nodes(rest).unwrap();
        assert(lower_nodes(ns) == Some(a + b));
        lemma_node(ns[0], s, fuel);
        lemma_exec_concat(a, b, s, fuel);
        if let Ir1Outcome::Done(s1) = exec_node(ns[0], s, fuel) {
            lemma_nodes(rest, s1, fuel);
        }
    } else {
        assert(exec_block(lower_nodes(ns).unwrap(), s, fuel) == Ir1Outcome::Done(s));
    }
}

/// Lowering to IR1 keeps the meaning of a program that runs to its end: when
/// the source nodes `ns` run from a state on the tape to their end (with
/// loops bounded by `fuel`), their IR1 lowering runs from that state to the
/// same end, and when the budget runs out, so does the lowering's. The
/// lowering faults only when the source program faults. A run of moves
/// becomes one move by its sum, so a source program whose pointer leaves the
/// tape within such a run need not fault once lowered, and where both fault,
/// they may fault at different points.
pub proof fn ir1_lowering_keeps_meaning(ns: Seq<NodeV>, s: BfState, fuel: nat)
    requires
        on_tape_state(s),
        lower_nodes(ns) is Some,
        runs_fit(ns),
    ensures
        exec_nodes(ns, s, fuel) matches Ir1Outcome::Done(s2) ==> exec_block(
            lower_nodes(ns).unwrap(),
            s,
            fuel,
        ) == Ir1Outcome::Done(s2),
        exec_nodes(ns, s, fuel) is OutOfFuel ==> exec_block(lower_nodes(ns).unwrap(), s, fuel) is OutOfFuel,
        exec_block(lower_nodes(ns).unwrap(), s, fuel) is Trap ==> exec_nodes(ns, s, fuel) is Trap,
{
    lemma_nodes(ns, s, fuel);
}

} // verus!
