//! What the stages promise one another: a tree that parsing makes always
//! lowers to IR1; the control-flow graph that lowering to IR2 builds is well
//! formed and its BF2 text reads back; the virtual machine runs it without
//! meeting a malformed graph, and running it does what the program means.
use vstd::prelude::*;

use crate::bfvm::{
    BFCAP,
    check_function, find_block, first_repeat, first_with_id, is_entry, machine_input,
    machine_step, repeats_id, run_machine, run_program, select_entry, step_limit, MachineV, RunV, StepV,
    ENTRY_FUNCTION_NAME,
};
use crate::bferror::{Ir2ErrorV, RuntimeErrorV};
use crate::semantics::{
    exec_block, exec_inst, exec_loop, exec_nodes, ir1_lowering_keeps_meaning, lemma_run_state_bounds,
    on_tape_state,
    pointer_fault, BfState, Ir1Outcome,
};
use crate::ir1::{
    flush_cell_spec, flush_ptr_spec, has_bracket, lower_node, lower_nodes, lower_run_spec,
    run_state, runs_fit, runs_fit_node,
};
use crate::lexer::Token;
use crate::parser::{canonical, canonical_node, is_bracket, NodeV};
use crate::ir1::Ir1InstV;
use crate::roundtrip::{bf2_function_writable, bf2_text_roundtrip, bf2_writable};
use crate::text::{is_word, is_ws};
use crate::ir2::{
    block_loops, emit_block_spec, emit_inst_spec, fresh_block, has_block, inst_loops,
    lower_function_spec, set_term_spec, push_inst_spec, bf2_parse, bf2_text, BlockV, FuncV,
    Ir2Inst, Ir2Terminator,
};

verus! {

/// Whether terminator `t` only targets blocks below `n`.
pub open spec fn targets_below(t: Option<Ir2Terminator>, n: int) -> bool {
    match t {
        Some(Ir2Terminator::Jump(x)) => x < n,
        Some(Ir2Terminator::BranchCellZero(z, nz)) => z < n && nz < n,
        _ => true,
    }
}

/// Whether the blocks `bs` form a well-formed control-flow graph: block `k`
/// has identifier `k`, every block has a terminator, and every jump or branch
/// targets one of the blocks.
pub open spec fn cfg_well_formed(bs: Seq<BlockV>) -> bool {
    &&& forall|k: int| 0 <= k < bs.len() ==> (#[trigger] bs[k]).0 == k
    &&& forall|k: int| 0 <= k < bs.len() ==> (#[trigger] bs[k]).2 is Some
    &&& forall|k: int| 0 <= k < bs.len() ==> targets_below((#[trigger] bs[k]).2, bs.len() as int)
}

/// Blocks being built, with `cur` the one that emission goes on in: block `k`
/// has identifier `k`, the current block has no terminator yet, and every
/// target is one of the blocks.
spec fn building(bs: Seq<BlockV>, cur: int) -> bool {
    &&& 0 <= cur < bs.len()
    &&& bs[cur].2 is None
    &&& forall|k: int| 0 <= k < bs.len() ==> (#[trigger] bs[k]).0 == k
    &&& forall|k: int| 0 <= k < bs.len() ==> targets_below((#[trigger] bs[k]).2, bs.len() as int)
}

/// What emitting from `(bs, cur)` to `(bs2, cur2)` keeps and builds: the
/// earlier blocks other than the current one are untouched, the old current
/// block is closed unless emission stays in it, and every new block but the
/// new current one is closed.
spec fn emitted(bs: Seq<BlockV>, cur: int, bs2: Seq<BlockV>, cur2: int) -> bool {
    &&& building(bs2, cur2)
    &&& bs.len() <= bs2.len()
    &&& cur2 == cur || cur2 >= bs.len()
    &&& forall|k: int| 0 <= k < bs.len() && k != cur ==> #[trigger] bs2[k] == bs[k]
    &&& cur2 != cur ==> bs2[cur].2 is Some
    &&& forall|k: int| bs.len() <= k < bs2.len() && k != cur2 ==> (#[trigger] bs2[k]).2 is Some
}

/// The blocks after a loop opens its head, body and exit blocks at the end
/// of `bs`: the current block jumps to the head, and the head branches to the
/// exit when the cell is zero and to the body otherwise.
spec fn loop_open(bs: Seq<BlockV>, cur: int) -> Seq<BlockV> {
    let n = bs.len() as int;
    let bs0 = bs + seq![fresh_block(n), fresh_block(n + 1), fresh_block(n + 2)];
    let bs1 = set_term_spec(bs0, cur, Ir2Terminator::Jump(n as usize));
    set_term_spec(bs1, n, Ir2Terminator::BranchCellZero((n + 2) as usize, (n + 1) as usize))
}

proof fn lemma_loop_open(bs: Seq<BlockV>, cur: int)
    requires
        building(bs, cur),
        bs.len() + 3 <= usize::MAX + 1,
    ensures
        building(loop_open(bs, cur), bs.len() + 1int),
        loop_open(bs, cur).len() == bs.len() + 3,
        forall|k: int| 0 <= k < bs.len() && k != cur ==> #[trigger] loop_open(bs, cur)[k] == bs[k],
        loop_open(bs, cur)[cur] == (
            bs[cur].0,
            bs[cur].1,
            Some(Ir2Terminator::Jump(bs.len() as usize)),
        ),
        loop_open(bs, cur)[bs.len() as int] == (
            bs.len() as usize,
            Seq::<Ir2Inst>::empty(),
            Some(Ir2Terminator::BranchCellZero((bs.len() + 2) as usize, (bs.len() + 1) as usize)),
        ),
        loop_open(bs, cur)[bs.len() + 1int] == fresh_block(bs.len() + 1int),
        loop_open(bs, cur)[bs.len() + 2int] == fresh_block(bs.len() + 2int),
{
    let n = bs.len() as int;
    let bs0 = bs + seq![fresh_block(n), fresh_block(n + 1), fresh_block(n + 2)];
    let bs2 = loop_open(bs, cur);
    assert(bs2.len() == n + 3);
    assert(bs2[n + 1] == fresh_block(n + 1));
    assert(bs2[n + 2] == fresh_block(n + 2));
    assert forall|k: int| 0 <= k < bs2.len() implies (#[trigger] bs2[k]).0 == k by {
        if k >= n {
            assert(bs0[k] == fresh_block(k));
        }
    }
    assert forall|k: int| 0 <= k < bs2.len() implies targets_below(
        (#[trigger] bs2[k]).2,
        bs2.len() as int,
    ) by {
        if k < n && k != cur {
            assert(bs2[k] == bs[k]);
            assert(targets_below(bs[k].2, n));
        }
    }
}

proof fn lemma_emit_inst(bs: Seq<BlockV>, cur: int, i: Ir1InstV)
    requires
        building(bs, cur),
        bs.len() + 3 * inst_loops(i) <= usize::MAX + 1,
    ensures
        emitted(bs, cur, emit_inst_spec((bs, cur), i).0, emit_inst_spec((bs, cur), i).1),
        emit_inst_spec((bs, cur), i).0.len() == bs.len() + 3 * inst_loops(i),
    decreases i,
{
    match i {
        Ir1InstV::Loop(inner) => {
            let n = bs.len() as int;
            let bs2 = loop_open(bs, cur);
            lemma_loop_open(bs, cur);
            assert(building(bs2, n + 1));
            lemma_emit_block(bs2, n + 1, inner);
            let (bs3, c3) = emit_block_spec((bs2, n + 1), inner);
            let bs4 = set_term_spec(bs3, c3, Ir2Terminator::Jump(n as usize));
            assert(emit_inst_spec((bs, cur), i) == (bs4, n + 2));
            assert(bs3[n + 2] == bs2[n + 2]);
            assert(bs4.len() == bs3.len());
            assert forall|k: int| 0 <= k < bs4.len() implies (#[trigger] bs4[k]).0 == k by {
                assert(bs3[k].0 == k);
            }
            assert forall|k: int| 0 <= k < bs4.len() implies targets_below(
                (#[trigger] bs4[k]).2,
                bs4.len() as int,
            ) by {
                assert(targets_below(bs3[k].2, bs3.len() as int));
            }
            assert forall|k: int| 0 <= k < bs.len() && k != cur implies #[trigger] bs4[k] == bs[k] by {
                assert(bs3[k] == bs2[k]);
                assert(bs2[k] == bs[k]);
            }
            assert(bs4[cur].2 is Some) by {
                assert(bs3[cur] == bs2[cur]);
            }
            assert forall|k: int| bs.len() <= k < bs4.len() && k != n + 2 implies (
            #[trigger] bs4[k]).2 is Some by {
                if k == n {
                    assert(bs3[n] == bs2[n]);
                } else if k != c3 {
                    if k == n + 1 {
                        assert(bs3[n + 1].2 is Some);
                    } else {
                        assert(bs3[k].2 is Some);
                    }
                }
            }
            assert(building(bs4, n + 2));
        },
        Ir1InstV::PtrMove(v) => {
            let bs2 = push_inst_spec(bs, cur, crate::ir2::Ir2Inst::AddPtrImm(v));
            assert forall|k: int| 0 <= k < bs2.len() implies (#[trigger] bs2[k]).0 == k by {
                assert(bs[k].0 == k);
            }
            assert forall|k: int| 0 <= k < bs2.len() implies targets_below(
                (#[trigger] bs2[k]).2,
                bs2.len() as int,
            ) by {
                assert(targets_below(bs[k].2, bs.len() as int));
            }
        },
        Ir1InstV::CellAdd(v) => {
            let bs2 = push_inst_spec(bs, cur, crate::ir2::Ir2Inst::AddCellImm(v));
            assert forall|k: int| 0 <= k < bs2.len() implies (#[trigger] bs2[k]).0 == k by {
                assert(bs[k].0 == k);
            }
            assert forall|k: int| 0 <= k < bs2.len() implies targets_below(
                (#[trigger] bs2[k]).2,
                bs2.len() as int,
            ) by {
                assert(targets_below(bs[k].2, bs.len() as int));
            }
        },
        Ir1InstV::Input => {
            let bs2 = push_inst_spec(bs, cur, crate::ir2::Ir2Inst::ReadByteToCell);
            assert forall|k: int| 0 <= k < bs2.len() implies (#[trigger] bs2[k]).0 == k by {
                assert(bs[k].0 == k);
            }
            assert forall|k: int| 0 <= k < bs2.len() implies targets_below(
                (#[trigger] bs2[k]).2,
                bs2.len() as int,
            ) by {
                assert(targets_below(bs[k].2, bs.len() as int));
            }
        },
        Ir1InstV::Output => {
            let bs2 = push_inst_spec(bs, cur, crate::ir2::Ir2Inst::WriteCellLow8);
            assert forall|k: int| 0 <= k < bs2.len() implies (#[trigger] bs2[k]).0 == k by {
                assert(bs[k].0 == k);
            }
            assert forall|k: int| 0 <= k < bs2.len() implies targets_below(
                (#[trigger] bs2[k]).2,
                bs2.len() as int,
            ) by {
                assert(targets_below(bs[k].2, bs.len() as int));
            }
        },
    }
}

proof fn lemma_emit_block(bs: Seq<BlockV>, cur: int, b: Seq<Ir1InstV>)
    requires
        building(bs, cur),
        bs.len() + 3 * block_loops(b) <= usize::MAX + 1,
    ensures
        emitted(bs, cur, emit_block_spec((bs, cur), b).0, emit_block_spec((bs, cur), b).1),
        emit_block_spec((bs, cur), b).0.len() == bs.len() + 3 * block_loops(b),
    decreases b,
{
    if b.len() > 0 {
        let t = b.subrange(1, b.len() as int);
        lemma_emit_inst(bs, cur, b[0]);
        let (bs1, c1) = emit_inst_spec((bs, cur), b[0]);
        lemma_emit_block(bs1, c1, t);
        let (bs2, c2) = emit_block_spec((bs1, c1), t);
        assert(emit_block_spec((bs, cur), b) == (bs2, c2));
        assert forall|k: int| 0 <= k < bs.len() && k != cur implies #[trigger] bs2[k] == bs[k] by {
            assert(bs1[k] == bs[k]);
            if k != c1 {
                assert(bs2[k] == bs1[k]);
            }
        }
        assert(c2 != cur ==> bs2[cur].2 is Some) by {
            if c2 != cur {
                if c1 == cur {
                    assert(bs2[cur].2 is Some);
                } else {
                    assert(bs1[cur].2 is Some);
                    assert(bs2[cur] == bs1[cur]);
                }
            }
        }
        assert forall|k: int| bs.len() <= k < bs2.len() && k != c2 implies (#[trigger] bs2[k]).2 is Some by {
            if k < bs1.len() {
                if k == c1 {
                    assert(bs2[c1].2 is Some);
                } else {
                    assert(bs1[k].2 is Some);
                    assert(bs2[k] == bs1[k]);
                }
            }
        }
    } else {
        assert(emit_block_spec((bs, cur), b) == (bs, cur));
    }
}

/// Whether block `x` is the one block of `bs` that ends in `Return`.
pub open spec fn sole_return(bs: Seq<BlockV>, x: int) -> bool {
    &&& 0 <= x < bs.len()
    &&& forall|k: int|
        0 <= k < bs.len() ==> ((#[trigger] bs[k]).2 == Some(Ir2Terminator::Return) <==> k == x)
}

/// Whether no block of `bs` ends in `Return`.
spec fn no_return(bs: Seq<BlockV>) -> bool {
    forall|k: int| 0 <= k < bs.len() ==> (#[trigger] bs[k]).2 != Some(Ir2Terminator::Return)
}

proof fn lemma_no_return_inst(bs: Seq<BlockV>, cur: int, i: Ir1InstV)
    requires
        building(bs, cur),
        no_return(bs),
        bs.len() + 3 * inst_loops(i) <= usize::MAX + 1,
    ensures
        no_return(emit_inst_spec((bs, cur), i).0),
    decreases i,
{
    let bs2 = emit_inst_spec((bs, cur), i).0;
    match i {
        Ir1InstV::Loop(inner) => {
            let n = bs.len() as int;
            let bo = loop_open(bs, cur);
            lemma_loop_open(bs, cur);
            assert(no_return(bo)) by {
                assert forall|k: int| 0 <= k < bo.len() implies (#[trigger] bo[k]).2 != Some(
                    Ir2Terminator::Return,
                ) by {
                    if k < n && k != cur {
                        assert(bo[k] == bs[k]);
                    }
                }
            }
            lemma_no_return_block(bo, n + 1, inner);
            lemma_emit_block(bo, n + 1, inner);
            let (bs3, c3) = emit_block_spec((bo, n + 1), inner);
            assert forall|k: int| 0 <= k < bs2.len() implies (#[trigger] bs2[k]).2 != Some(
                Ir2Terminator::Return,
            ) by {
                if k != c3 {
                    assert(bs2[k] == bs3[k]);
                }
            }
        },
        _ => {
            assert forall|k: int| 0 <= k < bs2.len() implies (#[trigger] bs2[k]).2 != Some(
                Ir2Terminator::Return,
            ) by {
                assert(bs2[k].2 == bs[k].2);
            }
        },
    }
}

proof fn lemma_no_return_block(bs: Seq<BlockV>, cur: int, b: Seq<Ir1InstV>)
    requires
        building(bs, cur),
        no_return(bs),
        bs.len() + 3 * block_loops(b) <= usize::MAX + 1,
    ensures
        no_return(emit_block_spec((bs, cur), b).0),
    decreases b,
{
    if b.len() > 0 {
        let t = b.subrange(1, b.len() as int);
        lemma_emit_inst(bs, cur, b[0]);
        lemma_no_return_inst(bs, cur, b[0]);
        let (bs1, c1) = emit_inst_spec((bs, cur), b[0]);
        lemma_no_return_block(bs1, c1, t);
        assert(emit_block_spec((bs, cur), b) == emit_block_spec((bs1, c1), t));
    }
}

/// The control-flow graph of a lowered program is well formed: its function
/// starts at block 0, it has one block and three more per loop, block `k`
/// has identifier `k`, every block has a terminator, and every jump or branch
/// targets one of its blocks, and exactly one block ends in `Return`. (The
/// bound is the one that lowering requires.)
pub proof fn lowered_cfg_well_formed(p: Seq<Ir1InstV>)
    requires
        1 + 3 * block_loops(p) <= usize::MAX,
    ensures
        lower_function_spec("entry"@, p).1 == 0,
        lower_function_spec("entry"@, p).2.len() == 1 + 3 * block_loops(p),
        cfg_well_formed(lower_function_spec("entry"@, p).2),
        exists|x: int| #[trigger] sole_return(lower_function_spec("entry"@, p).2, x),
{
    let bs0 = seq![fresh_block(0)];
    assert(building(bs0, 0));
    lemma_emit_block(bs0, 0, p);
    lemma_no_return_block(bs0, 0, p);
    let (bs, c) = emit_block_spec((bs0, 0), p);
    let f = lower_function_spec("entry"@, p);
    assert(f.2 == set_term_spec(bs, c, Ir2Terminator::Return));
    assert forall|k: int| 0 <= k < f.2.len() implies ((#[trigger] f.2[k]).2 == Some(
        Ir2Terminator::Return,
    ) <==> k == c) by {
        if k != c {
            assert(f.2[k] == bs[k]);
        }
    }
    assert(sole_return(f.2, c));
    assert forall|k: int| 0 <= k < f.2.len() implies (#[trigger] f.2[k]).2 is Some by {
        if k != c {
            assert(f.2[k] == bs[k]);
            if k == 0 {
                assert(bs[0].2 is Some);
            }
        }
    }
    assert forall|k: int| 0 <= k < f.2.len() implies (#[trigger] f.2[k]).0 == k by {
        assert(bs[k].0 == k);
    }
    assert forall|k: int| 0 <= k < f.2.len() implies targets_below(
        (#[trigger] f.2[k]).2,
        f.2.len() as int,
    ) by {
        assert(targets_below(bs[k].2, bs.len() as int));
    }
}

proof fn lemma_entry_word()
    ensures
        is_word("entry"@),
        "entry"@ == ENTRY_FUNCTION_NAME@,
{
    reveal_strlit("entry");
    assert forall|k: int| 0 <= k < "entry"@.len() implies !is_ws(#[trigger] "entry"@[k]) by {}
}

/// The BF2 text of a lowered program reads back as the program.
pub proof fn lowered_bf2_roundtrip(p: Seq<Ir1InstV>)
    requires
        1 + 3 * block_loops(p) <= usize::MAX,
    ensures
        bf2_parse(bf2_text(seq![lower_function_spec("entry"@, p)])) == Ok::<Seq<FuncV>, Ir2ErrorV>(
            seq![lower_function_spec("entry"@, p)],
        ),
{
    lowered_cfg_well_formed(p);
    lemma_entry_word();
    let f = lower_function_spec("entry"@, p);
    assert(f.2[0].0 == 0);
    assert(has_block(f.2, f.1));
    assert(bf2_function_writable(f));
    assert(bf2_writable(seq![f])) by {
        assert forall|k: int| 0 <= k < seq![f].len() implies bf2_function_writable(#[trigger] seq![f][k]) by {
            assert(seq![f][k] == f);
        }
    }
    bf2_text_roundtrip(seq![f]);
}

/// In a well-formed graph, the block with identifier `k` is block `k`.
proof fn lemma_find_block_wf(bs: Seq<BlockV>, k: int)
    requires
        cfg_well_formed(bs),
        0 <= k < bs.len(),
    ensures
        find_block(bs, k as usize) == Some(k),
{
    assert(bs[k].0 == k);
    assert forall|j: int| 0 <= j < k implies bs[j].0 != k as usize by {
        assert(bs[j].0 == j);
    }
    let id = k as usize;
    assert(first_with_id(bs, id, k));
    let c = choose|c: int| first_with_id(bs, id, c);
    assert(first_with_id(bs, id, c));
    assert(bs[c].0 == c);
}

/// A lowered program passes the checks that the virtual machine makes before
/// it runs: exactly one function is named `entry`, and that function has
/// blocks, no repeated block identifier, and its entry block.
pub proof fn lowered_program_runnable(p: Seq<Ir1InstV>)
    requires
        1 + 3 * block_loops(p) <= usize::MAX,
    ensures
        select_entry(seq![lower_function_spec("entry"@, p)]) == Ok::<int, RuntimeErrorV>(0),
        check_function(lower_function_spec("entry"@, p)) == Ok::<(), RuntimeErrorV>(()),
{
    lowered_cfg_well_formed(p);
    lemma_entry_word();
    let f = lower_function_spec("entry"@, p);
    let fs = seq![f];
    assert(is_entry(fs, 0));
    assert(!exists|i: int, j: int| i < j && is_entry(fs, i) && is_entry(fs, j));
    let c = choose|i: int| is_entry(fs, i);
    assert(is_entry(fs, c));
    assert(c == 0);
    let bs = f.2;
    assert forall|j: int| !first_repeat(bs, j) by {
        if repeats_id(bs, j) {
            let i = choose|i: int| 0 <= i < j && bs[i].0 == bs[j].0;
            assert(bs[i].0 == i);
            assert(bs[j].0 == j);
        }
    }
    lemma_find_block_wf(bs, 0);
}

/// Whether machine `m` is within the graph `bs`: at one of its blocks, at a
/// non-negative instruction index.
spec fn in_graph(bs: Seq<BlockV>, m: MachineV) -> bool {
    0 <= m.block < bs.len() && 0 <= m.inst
}

proof fn lemma_run_in_graph(f: FuncV, m: MachineV, input: Seq<u8>, output: Seq<u8>, fuel: nat)
    requires
        cfg_well_formed(f.2),
        in_graph(f.2, m),
    ensures
        run_machine(f, m, input, output, fuel) matches RunV::Failed(e, _, _, _) ==> e is PtrOutOfBounds,
    decreases fuel,
{
    if fuel > 0 {
        lemma_find_block_wf(f.2, m.block as int);
        let b = f.2[m.block as int];
        assert(b.2 is Some);
        assert(targets_below(b.2, f.2.len() as int));
        match machine_step(f, m) {
            StepV::Continue(m2) => {
                lemma_run_in_graph(f, m2, input, output, (fuel - 1) as nat);
            },
            StepV::NeedInput(m2) => {
                if input.len() > 0 {
                    lemma_run_in_graph(
                        f,
                        machine_input(m2, Some(input[0])),
                        input.drop_first(),
                        output,
                        (fuel - 1) as nat,
                    );
                } else {
                    lemma_run_in_graph(f, machine_input(m2, None), input, output, (fuel - 1) as nat);
                }
            },
            StepV::Output(m2, byte) => {
                lemma_run_in_graph(f, m2, input, output.push(byte), (fuel - 1) as nat);
            },
            StepV::Finished(_) => {},
            StepV::Fail(e) => {},
        }
    }
}

/// Running a lowered program fails only by moving the pointer off the tape:
/// from any machine, the run returns, runs out of steps, or stops with
/// `PtrOutOfBounds`.
pub proof fn lowered_run_fails_only_off_tape(
    p: Seq<Ir1InstV>,
    m: MachineV,
    input: Seq<u8>,
    output: Seq<u8>,
)
    requires
        1 + 3 * block_loops(p) <= usize::MAX,
    ensures
        run_program(seq![lower_function_spec("entry"@, p)], m, input, output) matches RunV::Failed(
            e,
            _,
            _,
            _,
        ) ==> e is PtrOutOfBounds,
{
    lowered_program_runnable(p);
    lowered_cfg_well_formed(p);
    let f = lower_function_spec("entry"@, p);
    assert(seq![f][0] == f);
    lemma_run_in_graph(f, MachineV { block: f.1, inst: 0, ..m }, input, output, u64::MAX as nat);
}

/// A run's configuration: the machine, the unread input and the output.
pub type RunCfg = (MachineV, Seq<u8>, Seq<u8>);

/// The configuration of state `s` at instruction `inst` of block `block`.
spec fn at(s: BfState, block: int, inst: int) -> RunCfg {
    (MachineV { tape: s.tape, pos: s.pos, block: block as usize, inst: inst }, s.input, s.output)
}

/// The configuration after one step of `f` from `c`, unless the step returns
/// or fails.
pub open spec fn step_cfg(f: FuncV, c: RunCfg) -> Option<RunCfg> {
    match machine_step(f, c.0) {
        StepV::Continue(m2) => Some((m2, c.1, c.2)),
        StepV::NeedInput(m2) => if c.1.len() > 0 {
            Some((machine_input(m2, Some(c.1[0])), c.1.drop_first(), c.2))
        } else {
            Some((machine_input(m2, None), c.1, c.2))
        },
        StepV::Output(m2, b) => Some((m2, c.1, c.2.push(b))),
        _ => None,
    }
}

/// The configuration after `n` steps of `f` from `c`, unless one of them
/// returns or fails.
pub open spec fn steps(f: FuncV, c: RunCfg, n: nat) -> Option<RunCfg>
    decreases n,
{
    if n == 0 {
        Some(c)
    } else {
        match step_cfg(f, c) {
            Some(c2) => steps(f, c2, (n - 1) as nat),
            None => None,
        }
    }
}

proof fn lemma_one_step(f: FuncV, c: RunCfg, c2: RunCfg)
    requires
        step_cfg(f, c) == Some(c2),
    ensures
        steps(f, c, 1) == Some(c2),
{
    assert(steps(f, c2, 0) == Some(c2));
}

proof fn lemma_steps_compose(f: FuncV, c: RunCfg, a: nat, c1: RunCfg, b: nat)
    requires
        steps(f, c, a) == Some(c1),
    ensures
        steps(f, c, a + b) == steps(f, c1, b),
    decreases a,
{
    if a > 0 {
        let c0 = step_cfg(f, c).unwrap();
        lemma_steps_compose(f, c0, (a - 1) as nat, c1, b);
        assert((a + b - 1) as nat == (a - 1) as nat + b);
    }
}

/// A run of `k` steps from `c` runs out of steps within the first `n`, and
/// after them goes on as the run from where they lead.
proof fn lemma_run_steps(f: FuncV, c: RunCfg, n: nat, c2: RunCfg, k: nat)
    requires
        steps(f, c, n) == Some(c2),
    ensures
        k <= n ==> run_machine(f, c.0, c.1, c.2, k) is Exhausted,
        k > n ==> run_machine(f, c.0, c.1, c.2, k) == run_machine(f, c2.0, c2.1, c2.2, (k - n) as nat),
    decreases n,
{
    if n > 0 && k > 0 {
        let c0 = step_cfg(f, c).unwrap();
        lemma_run_steps(f, c0, (n - 1) as nat, c2, (k - 1) as nat);
        assert(run_machine(f, c.0, c.1, c.2, k) == run_machine(f, c0.0, c0.1, c0.2, (k - 1) as nat));
    }
}

/// Whether block `y` is block `x` with perhaps more instructions and a
/// terminator.
spec fn extends_block(x: BlockV, y: BlockV) -> bool {
    &&& y.0 == x.0
    &&& x.1.len() <= y.1.len()
    &&& forall|j: int| 0 <= j < x.1.len() ==> #[trigger] y.1[j] == x.1[j]
}

proof fn lemma_extends_trans(x: BlockV, y: BlockV, z: BlockV)
    requires
        extends_block(x, y),
        extends_block(y, z),
    ensures
        extends_block(x, z),
{
    assert forall|j: int| 0 <= j < x.1.len() implies #[trigger] z.1[j] == x.1[j] by {
        assert(z.1[j] == y.1[j]);
    }
}

/// Whether the final graph `g` holds what emitting from `(bs, cur)` to
/// `(bs2, cur2)` built: the new blocks other than the current one, the old
/// current block if emission left it, and the start of the new current one.
spec fn agrees(bs: Seq<BlockV>, cur: int, bs2: Seq<BlockV>, cur2: int, g: Seq<BlockV>) -> bool {
    &&& bs2.len() <= g.len()
    &&& forall|k: int| bs.len() <= k < bs2.len() && k != cur2 ==> #[trigger] g[k] == bs2[k]
    &&& cur != cur2 ==> g[cur] == bs2[cur]
    &&& extends_block(bs2[cur2], g[cur2])
}

proof fn lemma_keeps_inst(bs: Seq<BlockV>, cur: int, i: Ir1InstV)
    requires
        building(bs, cur),
        bs.len() + 3 * inst_loops(i) <= usize::MAX + 1,
    ensures
        extends_block(bs[cur], emit_inst_spec((bs, cur), i).0[cur]),
{
    match i {
        Ir1InstV::Loop(inner) => {
            let n = bs.len() as int;
            let bs2 = loop_open(bs, cur);
            lemma_loop_open(bs, cur);
            lemma_emit_block(bs2, n + 1, inner);
            let (bs3, c3) = emit_block_spec((bs2, n + 1), inner);
            assert(bs3[cur] == bs2[cur]);
        },
        _ => {},
    }
}

proof fn lemma_keeps_block(bs: Seq<BlockV>, cur: int, b: Seq<Ir1InstV>)
    requires
        building(bs, cur),
        bs.len() + 3 * block_loops(b) <= usize::MAX + 1,
    ensures
        extends_block(bs[cur], emit_block_spec((bs, cur), b).0[cur]),
    decreases b,
{
    if b.len() > 0 {
        let t = b.subrange(1, b.len() as int);
        lemma_emit_inst(bs, cur, b[0]);
        lemma_keeps_inst(bs, cur, b[0]);
        let (bs1, c1) = emit_inst_spec((bs, cur), b[0]);
        lemma_emit_block(bs1, c1, t);
        lemma_keeps_block(bs1, c1, t);
        let (bs2, c2) = emit_block_spec((bs1, c1), t);
        assert(emit_block_spec((bs, cur), b) == (bs2, c2));
        if c1 == cur {
            lemma_extends_trans(bs[cur], bs1[cur], bs2[cur]);
        } else {
            assert(bs2[cur] == bs1[cur]);
        }
    }
}

/// Whether configuration `c` holds state `s` and the next step faults with
/// the error of a pointer move by `delta`.
spec fn trapped(f: FuncV, c: RunCfg, s: BfState, delta: i64) -> bool {
    &&& c == at(s, c.0.block as int, c.0.inst)
    &&& machine_step(f, c.0) == StepV::Fail(pointer_fault(s.pos, delta))
}

/// Whether `n` steps of `f` from `c` do what outcome `o` (reached with loop
/// budget `fuel`) says: end at instruction `inst` of block `block` in the
/// final state, reach `c2`, whose next step faults as the trap does, or, when
/// the budget ran out, go on for at least `fuel` steps.
spec fn simulates(
    f: FuncV,
    c: RunCfg,
    o: Ir1Outcome,
    fuel: nat,
    block: int,
    inst: int,
    n: nat,
    c2: RunCfg,
) -> bool {
    match o {
        Ir1Outcome::Done(s2) => steps(f, c, n) == Some(at(s2, block, inst)),
        Ir1Outcome::Trap(s2, v) => steps(f, c, n) == Some(c2) && trapped(f, c2, s2, v),
        Ir1Outcome::OutOfFuel => steps(f, c, n) is Some && n >= fuel,
    }
}

/// Running instruction `i`, emitted from `(bs, cur)`, in the final graph of
/// `f` does what the IR1 semantics says: from the instruction's first IR2
/// step to where emission went on, or to its fault.
proof fn sim_inst(f: FuncV, bs: Seq<BlockV>, cur: int, i: Ir1InstV, s: BfState, fuel: nat) -> (r: (
    nat,
    RunCfg,
))
    requires
        cfg_well_formed(f.2),
        building(bs, cur),
        bs.len() + 3 * inst_loops(i) <= usize::MAX + 1,
        agrees(bs, cur, emit_inst_spec((bs, cur), i).0, emit_inst_spec((bs, cur), i).1, f.2),
    ensures
        simulates(
            f,
            at(s, cur, bs[cur].1.len() as int),
            exec_inst(i, s, fuel),
            fuel,
            emit_inst_spec((bs, cur), i).1,
            emit_inst_spec((bs, cur), i).0[emit_inst_spec((bs, cur), i).1].1.len() as int,
            r.0,
            r.1,
        ),
    decreases fuel, i,
{
    let g = f.2;
    let len = bs[cur].1.len() as int;
    let c = at(s, cur, len);
    let (bs2, cur2) = emit_inst_spec((bs, cur), i);
    lemma_emit_inst(bs, cur, i);
    lemma_find_block_wf(g, cur);
    match i {
        Ir1InstV::Loop(body) => {
            let n = bs.len() as int;
            let bo = loop_open(bs, cur);
            lemma_loop_open(bs, cur);
            lemma_emit_block(bo, n + 1, body);
            let (bs3, c3) = emit_block_spec((bo, n + 1), body);
            assert(bs2 == set_term_spec(bs3, c3, Ir2Terminator::Jump(n as usize)));
            assert(cur2 == n + 2);
            assert(g[cur] == bo[cur]) by {
                assert(bs3[cur] == bo[cur]);
            }
            assert(g[n] == bo[n]) by {
                assert(bs3[n] == bo[n]);
            }
            assert(bs2[n + 2] == bo[n + 2]) by {
                assert(bs3[n + 2] == bo[n + 2]);
            }
            assert(g[c3] == bs2[c3]);
            assert(agrees(bo, n + 1, bs3, c3, g)) by {
                assert forall|k: int| bo.len() <= k < bs3.len() && k != c3 implies #[trigger] g[k]
                    == bs3[k] by {
                    assert(g[k] == bs2[k]);
                }
                if n + 1 != c3 {
                    assert(g[n + 1] == bs2[n + 1]);
                }
            }
            let c1 = at(s, n, 0);
            assert(step_cfg(f, c) == Some(c1));
            lemma_one_step(f, c, c1);
            let rl = sim_loop(f, n, bo, body, s, fuel);
            lemma_steps_compose(f, c, 1, c1, rl.0);
            (1 + rl.0, rl.1)
        },
        Ir1InstV::PtrMove(v) => {
            assert(g[cur].1[len] == bs2[cur].1[len]);
            let a = s.pos + v;
            if a < 0 || a >= BFCAP {
                (0, c)
            } else {
                let c1 = at(BfState { pos: a, ..s }, cur, len + 1);
                assert(step_cfg(f, c) == Some(c1));
                lemma_one_step(f, c, c1);
                (1, c)
            }
        },
        Ir1InstV::CellAdd(v) => {
            assert(g[cur].1[len] == bs2[cur].1[len]);
            let s1 = BfState { tape: s.tape.update(s.pos, s.tape[s.pos].wrapping_add(v)), ..s };
            let c1 = at(s1, cur, len + 1);
            assert(step_cfg(f, c) == Some(c1));
            lemma_one_step(f, c, c1);
            (1, c)
        },
        Ir1InstV::Input => {
            assert(g[cur].1[len] == bs2[cur].1[len]);
            let s1 = if s.input.len() > 0 {
                BfState {
                    tape: s.tape.update(s.pos, s.input[0] as i64),
                    input: s.input.drop_first(),
                    ..s
                }
            } else {
                BfState { tape: s.tape.update(s.pos, 0), ..s }
            };
            let c1 = at(s1, cur, len + 1);
            assert(step_cfg(f, c) == Some(c1));
            lemma_one_step(f, c, c1);
            (1, c)
        },
        Ir1InstV::Output => {
            assert(g[cur].1[len] == bs2[cur].1[len]);
            let s1 = BfState { output: s.output.push(s.tape[s.pos] as u8), ..s };
            let c1 = at(s1, cur, len + 1);
            assert(step_cfg(f, c) == Some(c1));
            lemma_one_step(f, c, c1);
            (1, c)
        },
    }
}

/// Running a loop whose head is block `n`, whose body was emitted from
/// `(bo, n + 1)` and whose exit is block `n + 2` does what the IR1 semantics
/// says: from the head to the exit, or to a fault.
proof fn sim_loop(f: FuncV, n: int, bo: Seq<BlockV>, body: Seq<Ir1InstV>, s: BfState, fuel: nat) -> (r: (
    nat,
    RunCfg,
))
    requires
        cfg_well_formed(f.2),
        building(bo, n + 1),
        bo.len() == n + 3,
        bo[n + 1].1.len() == 0,
        bo.len() + 3 * block_loops(body) <= usize::MAX + 1,
        0 <= n < f.2.len(),
        f.2[n].1.len() == 0,
        f.2[n].2 == Some(Ir2Terminator::BranchCellZero((n + 2) as usize, (n + 1) as usize)),
        agrees(bo, n + 1, emit_block_spec((bo, n + 1), body).0, emit_block_spec((bo, n + 1), body).1, f.2),
        f.2[emit_block_spec((bo, n + 1), body).1] == (
            emit_block_spec((bo, n + 1), body).0[emit_block_spec((bo, n + 1), body).1].0,
            emit_block_spec((bo, n + 1), body).0[emit_block_spec((bo, n + 1), body).1].1,
            Some(Ir2Terminator::Jump(n as usize)),
        ),
    ensures
        simulates(f, at(s, n, 0), exec_loop(body, s, fuel), fuel, n + 2, 0, r.0, r.1),
    decreases fuel, body,
{
    let g = f.2;
    let c = at(s, n, 0);
    lemma_emit_block(bo, n + 1, body);
    let (bs3, c3) = emit_block_spec((bo, n + 1), body);
    lemma_find_block_wf(g, n);
    if s.tape[s.pos] == 0 {
        let c1 = at(s, n + 2, 0);
        assert(step_cfg(f, c) == Some(c1));
        lemma_one_step(f, c, c1);
        (1, c)
    } else if fuel == 0 {
        (0, c)
    } else {
        let c1 = at(s, n + 1, 0);
        assert(step_cfg(f, c) == Some(c1));
        lemma_one_step(f, c, c1);
        let rb = sim_block(f, bo, n + 1, body, s, (fuel - 1) as nat);
        match exec_block(body, s, (fuel - 1) as nat) {
            Ir1Outcome::Done(s1) => {
                let l3 = bs3[c3].1.len() as int;
                let c2 = at(s1, c3, l3);
                let c4 = at(s1, n, 0);
                lemma_find_block_wf(g, c3);
                assert(g[c3].1.len() == l3);
                assert(step_cfg(f, c2) == Some(c4));
                lemma_one_step(f, c2, c4);
                let rl = sim_loop(f, n, bo, body, s1, (fuel - 1) as nat);
                lemma_steps_compose(f, c2, 1, c4, rl.0);
                lemma_steps_compose(f, c1, rb.0, c2, 1 + rl.0);
                lemma_steps_compose(f, c, 1, c1, rb.0 + (1 + rl.0));
                (1 + (rb.0 + (1 + rl.0)), rl.1)
            },
            _ => {
                lemma_steps_compose(f, c, 1, c1, rb.0);
                (1 + rb.0, rb.1)
            },
        }
    }
}

/// Running block `b`, emitted from `(bs, cur)`, in the final graph of `f`
/// does what the IR1 semantics says.
proof fn sim_block(f: FuncV, bs: Seq<BlockV>, cur: int, b: Seq<Ir1InstV>, s: BfState, fuel: nat) -> (r: (
    nat,
    RunCfg,
))
    requires
        cfg_well_formed(f.2),
        building(bs, cur),
        bs.len() + 3 * block_loops(b) <= usize::MAX + 1,
        agrees(bs, cur, emit_block_spec((bs, cur), b).0, emit_block_spec((bs, cur), b).1, f.2),
    ensures
        simulates(
            f,
            at(s, cur, bs[cur].1.len() as int),
            exec_block(b, s, fuel),
            fuel,
            emit_block_spec((bs, cur), b).1,
            emit_block_spec((bs, cur), b).0[emit_block_spec((bs, cur), b).1].1.len() as int,
            r.0,
            r.1,
        ),
    decreases fuel, b,
{
    let c = at(s, cur, bs[cur].1.len() as int);
    if b.len() == 0 {
        (0, c)
    } else {
        let t = b.subrange(1, b.len() as int);
        lemma_emit_inst(bs, cur, b[0]);
        let (bs1, c1) = emit_inst_spec((bs, cur), b[0]);
        lemma_emit_block(bs1, c1, t);
        lemma_keeps_block(bs1, c1, t);
        let (bs2, c2) = emit_block_spec((bs1, c1), t);
        assert(emit_block_spec((bs, cur), b) == (bs2, c2));
        assert(agrees(bs, cur, bs1, c1, f.2)) by {
            assert forall|k: int| bs.len() <= k < bs1.len() && k != c1 implies #[trigger] f.2[k]
                == bs1[k] by {
                assert(f.2[k] == bs2[k]);
            }
            if cur != c1 {
                assert(f.2[cur] == bs2[cur]);
            }
            if c1 != c2 {
                assert(f.2[c1] == bs2[c1]);
            } else {
                lemma_extends_trans(bs1[c1], bs2[c1], f.2[c1]);
            }
        }
        assert(agrees(bs1, c1, bs2, c2, f.2)) by {
            if c1 != c2 && c1 != cur {
                assert(f.2[c1] == bs2[c1]);
            }
        }
        let ri = sim_inst(f, bs, cur, b[0], s, fuel);
        match exec_inst(b[0], s, fuel) {
            Ir1Outcome::Done(s1) => {
                let c1s = at(s1, c1, bs1[c1].1.len() as int);
                let rr = sim_block(f, bs1, c1, t, s1, fuel);
                lemma_steps_compose(f, c, ri.0, c1s, rr.0);
                (ri.0 + rr.0, rr.1)
            },
            _ => ri,
        }
    }
}

/// Running the lowered form of IR1 program `p` on the virtual machine from
/// machine `m`, with in-memory streams.
pub open spec fn run_lowered(p: Seq<Ir1InstV>, m: MachineV, input: Seq<u8>, output: Seq<u8>) -> RunV {
    run_program(seq![lower_function_spec("entry"@, p)], m, input, output)
}

/// Whether run result `r` is a return that leaves state `s`: its tape,
/// pointer, unread input and output.
pub open spec fn returns_in(r: RunV, s: BfState) -> bool {
    r matches RunV::Done(m, i, o) && m.tape == s.tape && m.pos == s.pos && i == s.input && o
        == s.output
}

/// Whether run result `r` is the fault of a pointer move by `delta` in state
/// `s`.
pub open spec fn faults_in(r: RunV, s: BfState, delta: i64) -> bool {
    r matches RunV::Failed(e, m, i, o) && e == pointer_fault(s.pos, delta) && m.tape == s.tape
        && m.pos == s.pos && i == s.input && o == s.output
}

/// Lowering keeps the meaning of a program: when IR1 program `p`, run from
/// state `s` with loops bounded by any budget `fuel`, ends, the virtual
/// machine running its lowered function from a machine with that tape and
/// pointer ends the same way (with the same tape, pointer, unread input and
/// output, or with the same pointer fault) unless it runs out of steps; and
/// when a budget of at least the step limit runs out, the machine runs out of
/// steps too.
pub proof fn lowering_keeps_meaning(p: Seq<Ir1InstV>, s: BfState, fuel: nat, m: MachineV)
    requires
        1 + 3 * block_loops(p) <= usize::MAX,
        m.tape == s.tape,
        m.pos == s.pos,
    ensures
        exec_block(p, s, fuel) matches Ir1Outcome::Done(s2) ==> run_lowered(
            p,
            m,
            s.input,
            s.output,
        ) is Exhausted || returns_in(run_lowered(p, m, s.input, s.output), s2),
        exec_block(p, s, fuel) matches Ir1Outcome::Trap(s2, v) ==> run_lowered(
            p,
            m,
            s.input,
            s.output,
        ) is Exhausted || faults_in(run_lowered(p, m, s.input, s.output), s2, v),
        exec_block(p, s, fuel) is OutOfFuel && fuel >= step_limit() ==> run_lowered(
            p,
            m,
            s.input,
            s.output,
        ) is Exhausted,
{
    lowered_program_runnable(p);
    lowered_cfg_well_formed(p);
    let f = lower_function_spec("entry"@, p);
    let bs0 = seq![fresh_block(0)];
    assert(building(bs0, 0));
    lemma_emit_block(bs0, 0, p);
    let (bs, c) = emit_block_spec((bs0, 0), p);
    assert(f.2 == set_term_spec(bs, c, Ir2Terminator::Return));
    assert(agrees(bs0, 0, bs, c, f.2)) by {
        assert forall|k: int| bs0.len() <= k < bs.len() && k != c implies #[trigger] f.2[k]
            == bs[k] by {}
    }
    let r = sim_block(f, bs0, 0, p, s, fuel);
    let c0 = at(s, 0, 0);
    assert(seq![f][0] == f);
    assert(MachineV { block: f.1, inst: 0, ..m } == c0.0);
    let k = step_limit();
    assert(run_lowered(p, m, s.input, s.output) == run_machine(f, c0.0, c0.1, c0.2, k));
    match exec_block(p, s, fuel) {
        Ir1Outcome::Done(s2) => {
            let ce = at(s2, c, bs[c].1.len() as int);
            lemma_run_steps(f, c0, r.0, ce, k);
            if k > r.0 {
                lemma_find_block_wf(f.2, c);
                assert(machine_step(f, ce.0) == StepV::Finished(ce.0));
                assert(run_machine(f, ce.0, ce.1, ce.2, (k - r.0) as nat) == RunV::Done(
                    ce.0,
                    ce.1,
                    ce.2,
                ));
            }
        },
        Ir1Outcome::Trap(s2, v) => {
            lemma_run_steps(f, c0, r.0, r.1, k);
        },
        Ir1Outcome::OutOfFuel => {
            lemma_run_steps(f, c0, r.0, steps(f, c0, r.0).unwrap(), k);
        },
    }
}

/// The virtual machine runs a lowered program as it is meant: unless the run
/// exceeds the step limit, it returns exactly when the IR1 program, with
/// loops bounded by that limit, runs to its end, leaving the same tape,
/// pointer, unread input and output, and it fails exactly when the program
/// moves its pointer off the tape, with the same fault in the same state.
pub proof fn vm_runs_lowered_program_as_meant(p: Seq<Ir1InstV>, s: BfState, m: MachineV)
    requires
        1 + 3 * block_loops(p) <= usize::MAX,
        m.tape == s.tape,
        m.pos == s.pos,
    ensures
        run_lowered(p, m, s.input, s.output) is Exhausted || (exec_block(
            p,
            s,
            step_limit(),
        ) matches Ir1Outcome::Done(s2) && returns_in(run_lowered(p, m, s.input, s.output), s2))
            || (exec_block(p, s, step_limit()) matches Ir1Outcome::Trap(s2, v) && faults_in(
            run_lowered(p, m, s.input, s.output),
            s2,
            v,
        )),
{
    lowering_keeps_meaning(p, s, step_limit(), m);
}

/// A source program that runs to its end from a state on the tape does the
/// same on the virtual machine once lowered to IR1 and then to IR2: the run
/// from a machine with that tape and pointer returns with the same tape,
/// pointer, unread input and output, unless it runs out of steps.
pub proof fn compiled_program_keeps_meaning(ns: Seq<NodeV>, s: BfState, fuel: nat, m: MachineV)
    requires
        on_tape_state(s),
        lower_nodes(ns) is Some,
        runs_fit(ns),
        1 + 3 * block_loops(lower_nodes(ns).unwrap()) <= usize::MAX,
        m.tape == s.tape,
        m.pos == s.pos,
    ensures
        exec_nodes(ns, s, fuel) matches Ir1Outcome::Done(s2) ==> run_lowered(
            lower_nodes(ns).unwrap(),
            m,
            s.input,
            s.output,
        ) is Exhausted || returns_in(run_lowered(lower_nodes(ns).unwrap(), m, s.input, s.output), s2),
{
    ir1_lowering_keeps_meaning(ns, s, fuel);
    lowering_keeps_meaning(lower_nodes(ns).unwrap(), s, fuel, m);
}

proof fn lemma_canonical_each(ns: Seq<NodeV>)
    requires
        canonical(ns),
    ensures
        forall|i: int| 0 <= i < ns.len() ==> canonical_node(#[trigger] ns[i]),
    decreases ns.len(),
{
    if ns.len() > 0 {
        let pre = ns.subrange(0, ns.len() - 1);
        lemma_canonical_each(pre);
        assert forall|i: int| 0 <= i < ns.len() implies canonical_node(#[trigger] ns[i]) by {
            if i < ns.len() - 1 {
                assert(ns[i] == pre[i]);
            }
        }
    }
}

proof fn lemma_node_lowers(n: NodeV)
    requires
        canonical_node(n),
    ensures
        lower_node(n) is Some,
    decreases n,
{
    match n {
        NodeV::Run(ts) => {
            assert(!has_bracket(ts)) by {
                assert forall|i: int| 0 <= i < ts.len() implies !(ts[i] == Token::JMPIN || ts[i]
                    == Token::JMPOUT) by {
                    assert(!is_bracket(ts[i]));
                }
            }
        },
        NodeV::Loop(b) => {
            lemma_canonical_each(b);
            lemma_nodes_lower(b);
        },
    }
}

proof fn lemma_nodes_lower(ns: Seq<NodeV>)
    requires
        forall|i: int| 0 <= i < ns.len() ==> canonical_node(#[trigger] ns[i]),
    ensures
        lower_nodes(ns) is Some,
    decreases ns,
{
    if ns.len() > 0 {
        let rest = ns.subrange(1, ns.len() as int);
        lemma_node_lowers(ns[0]);
        assert forall|i: int| 0 <= i < rest.len() implies canonical_node(#[trigger] rest[i]) by {
            assert(rest[i] == ns[i + 1]);
        }
        lemma_nodes_lower(rest);
    }
}

/// A tree that parsing produces always lowers to IR1: its runs hold no
/// bracket, so lowering never fails on it.
pub proof fn parsed_tree_lowers(ns: Seq<NodeV>)
    requires
        canonical(ns),
    ensures
        lower_nodes(ns) is Some,
{
    lemma_canonical_each(ns);
    lemma_nodes_lower(ns);
}

/// Whether some run of the nodes, at any depth, holds a bracket.
pub open spec fn bracket_in_runs(ns: Seq<NodeV>) -> bool
    decreases ns,
{
    if ns.len() == 0 {
        false
    } else {
        bracket_in_node(ns[0]) || bracket_in_runs(ns.subrange(1, ns.len() as int))
    }
}

/// Whether a run of the node, at any depth, holds a bracket.
pub open spec fn bracket_in_node(n: NodeV) -> bool
    decreases n,
{
    match n {
        NodeV::Run(ts) => has_bracket(ts),
        NodeV::Loop(b) => bracket_in_runs(b),
    }
}

/// The nesting of loops: one entry per loop, in order, holding the loops
/// nested in its body.
pub enum LoopShape {
    Loop(Seq<LoopShape>),
}

/// The loops of the nodes, in order and with their nesting.
pub open spec fn tree_shape(ns: Seq<NodeV>) -> Seq<LoopShape>
    decreases ns,
{
    if ns.len() == 0 {
        Seq::empty()
    } else {
        node_shape(ns[0]) + tree_shape(ns.subrange(1, ns.len() as int))
    }
}

pub open spec fn node_shape(n: NodeV) -> Seq<LoopShape>
    decreases n,
{
    match n {
        NodeV::Run(_) => Seq::empty(),
        NodeV::Loop(b) => seq![LoopShape::Loop(tree_shape(b))],
    }
}

/// The loops of an IR1 block, in order and with their nesting.
pub open spec fn ir1_shape(p: Seq<Ir1InstV>) -> Seq<LoopShape>
    decreases p,
{
    if p.len() == 0 {
        Seq::empty()
    } else {
        inst_shape(p[0]) + ir1_shape(p.subrange(1, p.len() as int))
    }
}

pub open spec fn inst_shape(i: Ir1InstV) -> Seq<LoopShape>
    decreases i,
{
    match i {
        Ir1InstV::Loop(b) => seq![LoopShape::Loop(ir1_shape(b))],
        _ => Seq::empty(),
    }
}

/// Whether no pointer move or cell addition of the block, at any depth, is
/// by zero.
pub open spec fn no_zero_steps(p: Seq<Ir1InstV>) -> bool
    decreases p,
{
    if p.len() == 0 {
        true
    } else {
        inst_nonzero(p[0]) && no_zero_steps(p.subrange(1, p.len() as int))
    }
}

pub open spec fn inst_nonzero(i: Ir1InstV) -> bool
    decreases i,
{
    match i {
        Ir1InstV::PtrMove(v) => v != 0,
        Ir1InstV::CellAdd(v) => v != 0,
        Ir1InstV::Loop(b) => no_zero_steps(b),
        _ => true,
    }
}

proof fn lemma_shape_concat(a: Seq<Ir1InstV>, b: Seq<Ir1InstV>)
    ensures
        ir1_shape(a + b) == ir1_shape(a) + ir1_shape(b),
        no_zero_steps(a + b) == (no_zero_steps(a) && no_zero_steps(b)),
    decreases a.len(),
{
    if a.len() == 0 {
        assert(a + b =~= b);
        assert(ir1_shape(a) + ir1_shape(b) =~= ir1_shape(b));
    } else {
        let t = a.subrange(1, a.len() as int);
        assert((a + b)[0] == a[0]);
        assert((a + b).subrange(1, (a + b).len() as int) =~= t + b);
        lemma_shape_concat(t, b);
        assert(inst_shape(a[0]) + (ir1_shape(t) + ir1_shape(b)) =~= (inst_shape(a[0]) + ir1_shape(
            t,
        )) + ir1_shape(b));
    }
}

/// Whether the instructions are moves and additions by non-zero amounts,
/// reads and writes: no loop.
spec fn flat_nonzero(out: Seq<Ir1InstV>) -> bool {
    forall|k: int|
        0 <= k < out.len() ==> !((#[trigger] out[k]) is Loop) && inst_nonzero(out[k])
}

proof fn lemma_flat_nonzero(out: Seq<Ir1InstV>)
    requires
        flat_nonzero(out),
    ensures
        ir1_shape(out) == Seq::<LoopShape>::empty(),
        no_zero_steps(out),
    decreases out.len(),
{
    if out.len() > 0 {
        let t = out.subrange(1, out.len() as int);
        assert(flat_nonzero(t)) by {
            assert forall|k: int| 0 <= k < t.len() implies !((#[trigger] t[k]) is Loop)
                && inst_nonzero(t[k]) by {
                assert(t[k] == out[k + 1]);
            }
        }
        lemma_flat_nonzero(t);
        assert(!(out[0] is Loop) && inst_nonzero(out[0]));
        assert(inst_shape(out[0]) =~= Seq::<LoopShape>::empty());
        assert(ir1_shape(out) =~= Seq::<LoopShape>::empty());
    }
}

proof fn lemma_run_state_flat(ts: Seq<Token>)
    requires
        ts.len() <= i64::MAX,
    ensures
        flat_nonzero(run_state(ts).2),
    decreases ts.len(),
{
    if ts.len() > 0 {
        let u = ts.drop_last();
        lemma_run_state_flat(u);
        lemma_run_state_bounds(u);
        let (p, c, out) = run_state(u);
        let o1 = flush_ptr_spec(out, p);
        let o2 = flush_cell_spec(out, c);
        let o3 = flush_cell_spec(o1, c);
        assert(flat_nonzero(o1));
        assert(flat_nonzero(o2));
        assert(flat_nonzero(o3));
        assert(flat_nonzero(o3.push(Ir1InstV::Input)));
        assert(flat_nonzero(o3.push(Ir1InstV::Output)));
    }
}

proof fn lemma_run_lowers_flat(ts: Seq<Token>)
    requires
        ts.len() <= i64::MAX,
    ensures
        ir1_shape(lower_run_spec(ts)) == Seq::<LoopShape>::empty(),
        no_zero_steps(lower_run_spec(ts)),
{
    lemma_run_state_flat(ts);
    lemma_run_state_bounds(ts);
    let (p, c, out) = run_state(ts);
    let o1 = flush_ptr_spec(out, p);
    assert(flat_nonzero(o1));
    assert(flat_nonzero(flush_cell_spec(o1, c)));
    lemma_flat_nonzero(lower_run_spec(ts));
}

proof fn lemma_node_lowering(n: NodeV)
    requires
        runs_fit_node(n),
    ensures
        lower_node(n) is None <==> bracket_in_node(n),
        lower_node(n) matches Some(x) ==> ir1_shape(x) == node_shape(n) && no_zero_steps(x),
    decreases n,
{
    match n {
        NodeV::Run(ts) => {
            if !has_bracket(ts) {
                lemma_run_lowers_flat(ts);
            }
        },
        NodeV::Loop(b) => {
            lemma_nodes_lowering(b);
            if let Some(x) = lower_nodes(b) {
                let one = seq![Ir1InstV::Loop(x)];
                assert(one[0] == Ir1InstV::Loop(x));
                assert(one.subrange(1, 1) =~= Seq::<Ir1InstV>::empty());
                assert(ir1_shape(Seq::<Ir1InstV>::empty()) =~= Seq::<LoopShape>::empty());
                assert(no_zero_steps(Seq::<Ir1InstV>::empty()));
                assert(inst_shape(Ir1InstV::Loop(x)) == seq![LoopShape::Loop(ir1_shape(x))]);
                assert(inst_nonzero(Ir1InstV::Loop(x)) == no_zero_steps(x));
                assert(ir1_shape(one) =~= seq![LoopShape::Loop(ir1_shape(x))]);
                assert(no_zero_steps(one));
            }
        },
    }
}

proof fn lemma_nodes_lowering(ns: Seq<NodeV>)
    requires
        runs_fit(ns),
    ensures
        lower_nodes(ns) is None <==> bracket_in_runs(ns),
        lower_nodes(ns) matches Some(x) ==> ir1_shape(x) == tree_shape(ns) && no_zero_steps(x),
    decreases ns,
{
    if ns.len() > 0 {
        let rest = ns.subrange(1, ns.len() as int);
        lemma_node_lowering(ns[0]);
        lemma_nodes_lowering(rest);
        if let Some(a) = lower_node(ns[0]) {
            if let Some(b) = lower_nodes(rest) {
                lemma_shape_concat(a, b);
            }
        }
    } else {
        assert(ir1_shape(Seq::<Ir1InstV>::empty()) =~= Seq::<LoopShape>::empty());
    }
}

/// Lowering a syntax tree to IR1 fails exactly when some run, at any depth,
/// holds a bracket; otherwise every loop of the tree becomes one loop of the
/// IR1 program, in the same order and nesting, and no pointer move or cell
/// addition is by zero.
pub proof fn ir1_lowering_shape(ns: Seq<NodeV>)
    requires
        runs_fit(ns),
    ensures
        lower_nodes(ns) is None <==> bracket_in_runs(ns),
        lower_nodes(ns) matches Some(p) ==> ir1_shape(p) == tree_shape(ns) && no_zero_steps(p),
{
    lemma_nodes_lowering(ns);
}

proof fn lemma_steps_prefix(f: FuncV, c: RunCfg, a: nat, b: nat)
    requires
        steps(f, c, a + b) is Some,
    ensures
        steps(f, c, a) is Some,
    decreases a,
{
    if a > 0 {
        let c0 = step_cfg(f, c).unwrap();
        assert((a + b - 1) as nat == (a - 1) as nat + b);
        lemma_steps_prefix(f, c0, (a - 1) as nat, b);
    }
}

/// Running a block: from its first instruction, the instructions run in
/// order, one per step, each from the state the earlier ones left (the
/// machine stays in the block and the instruction index advances); the first
/// that fails ends the run with its error in the state the earlier ones
/// left; and once all have run, a block without terminator fails with
/// `MissingTerminator`.
pub proof fn block_runs_in_order(f: FuncV, c: RunCfg, i: nat, fuel: nat)
    requires
        find_block(f.2, c.0.block) is Some,
        c.0.inst == 0,
        i <= f.2[find_block(f.2, c.0.block).unwrap()].1.len(),
        steps(f, c, i) is Some,
    ensures
        steps(f, c, i).unwrap().0.block == c.0.block,
        steps(f, c, i).unwrap().0.inst == i,
        fuel > i ==> (machine_step(f, steps(f, c, i).unwrap().0) matches StepV::Fail(e)
            ==> run_machine(f, c.0, c.1, c.2, fuel) == RunV::Failed(
            e,
            steps(f, c, i).unwrap().0,
            steps(f, c, i).unwrap().1,
            steps(f, c, i).unwrap().2,
        )),
        i == f.2[find_block(f.2, c.0.block).unwrap()].1.len() && f.2[find_block(
            f.2,
            c.0.block,
        ).unwrap()].2 is None ==> machine_step(f, steps(f, c, i).unwrap().0) == StepV::Fail(
            RuntimeErrorV::MissingTerminator { function: f.0, block_id: c.0.block },
        ),
    decreases i,
{
    let ci = steps(f, c, i).unwrap();
    if i > 0 {
        lemma_steps_prefix(f, c, (i - 1) as nat, 1);
        block_runs_in_order(f, c, (i - 1) as nat, fuel);
        let cp = steps(f, c, (i - 1) as nat).unwrap();
        lemma_steps_compose(f, c, (i - 1) as nat, cp, 1);
        assert(((i - 1) as nat + 1) as nat == i);
        let cn = step_cfg(f, cp).unwrap();
        assert(steps(f, cn, 0) == Some(cn));
        assert(ci == cn);
    }
    lemma_run_steps(f, c, i, ci, fuel);
}

} // verus!
