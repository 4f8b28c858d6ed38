//! The BF2 virtual machine: a tape of 30 000 wrapping `i64` cells and a pointer,
//! driven one step at a time. A step that reads or writes a byte hands the
//! transfer to its driver; `Status::run` drives a program to its end with
//! in-memory byte streams.
use vstd::prelude::*;

use crate::bferror::{RuntimeError, RuntimeErrorV};
use crate::ir2::{bf2_parse, blocks_view, funcs_view, BlockId, BlockV, FuncV, Ir2Block, Ir2Function, Ir2Inst, Ir2Program, Ir2Terminator};
use crate::logging::{emitted_lines, LogLevel, Logger};
use crate::text::{int_dec, chars_of, push_chars, push_i128, push_i64, push_str, push_usize, str_eq, string_from_chars};

verus! {

/// The number of cells of the tape.
pub const BFCAP: usize = 30000;

/// The name of the function that a run starts in.
pub const ENTRY_FUNCTION_NAME: &'static str = "entry";

/// The machine's state: the tape, the pointer, the current block and the
/// index of the next instruction in it.
pub struct MachineV {
    pub tape: Seq<i64>,
    pub pos: int,
    pub block: usize,
    pub inst: int,
}

/// The outcome of one step.
pub enum StepV {
    /// An instruction or a jump was executed.
    Continue(MachineV),
    /// The next instruction reads a byte; the machine has not moved.
    NeedInput(MachineV),
    /// A byte was written.
    Output(MachineV, u8),
    /// The function returned.
    Finished(MachineV),
    /// The step failed; the machine is unchanged.
    Fail(RuntimeErrorV),
}

/// What a step asks its driver to do.
#[derive(Debug, Clone, Copy, PartialEq, Eq, Structural)]
pub enum VmAction {
    /// Nothing: step again.
    Continue,
    /// Read one byte and hand it over with `Status::complete_input`.
    NeedInput,
    /// Write this byte.
    Output(u8),
    /// The function has returned.
    Finished,
}

/// Whether block `k` of `bs` is the first with identifier `id`.
pub open spec fn first_with_id(bs: Seq<BlockV>, id: usize, k: int) -> bool {
    &&& 0 <= k < bs.len()
    &&& bs[k].0 == id
    &&& forall|j: int| 0 <= j < k ==> bs[j].0 != id
}

/// The index of the first block of `bs` with identifier `id`.
pub open spec fn find_block(bs: Seq<BlockV>, id: usize) -> Option<int> {
    if exists|k: int| first_with_id(bs, id, k) {
        Some(choose|k: int| first_with_id(bs, id, k))
    } else {
        None
    }
}

/// Whether machine `m` is on a tape of `BFCAP` cells with its pointer on it.
pub open spec fn on_tape(m: MachineV) -> bool {
    m.tape.len() == BFCAP && 0 <= m.pos < BFCAP
}

/// The pointer never leaves the tape: a step from a machine on the tape, and
/// a completed read, leave a machine on the tape, and a move that would
/// leave it fails instead.
pub proof fn pointer_stays_on_tape(f: FuncV, m: MachineV, byte: Option<u8>)
    requires
        on_tape(m),
    ensures
        machine_step(f, m) matches StepV::Continue(m2) ==> on_tape(m2),
        machine_step(f, m) matches StepV::NeedInput(m2) ==> on_tape(m2) && on_tape(machine_input(m2, byte)),
        machine_step(f, m) matches StepV::Output(m2, _) ==> on_tape(m2),
        machine_step(f, m) matches StepV::Finished(m2) ==> on_tape(m2),
{
}

/// The machine with the instruction index advanced.
pub open spec fn advance(m: MachineV) -> MachineV {
    MachineV { inst: m.inst + 1, ..m }
}

/// One step of the machine in function `f`: the next instruction of the
/// current block, or its terminator once its instructions are done. A pointer
/// move outside `[0, 29999]` fails; cell additions wrap.
pub open spec fn machine_step(f: FuncV, m: MachineV) -> StepV {
    match find_block(f.2, m.block) {
        None => StepV::Fail(RuntimeErrorV::UnknownBlockId { function: f.0, block_id: m.block }),
        Some(bi) => {
            let b = f.2[bi];
            if 0 <= m.inst < b.1.len() {
                match b.1[m.inst] {
                    Ir2Inst::AddPtrImm(v) => {
                        let a = m.pos + v;
                        if a < 0 || a >= BFCAP {
                            StepV::Fail(
                                RuntimeErrorV::PtrOutOfBounds {
                                    current: m.pos as i64,
                                    delta: v,
                                    attempted: a as i128,
                                    min: 0,
                                    max: (BFCAP - 1) as i128,
                                },
                            )
                        } else {
                            StepV::Continue(MachineV { pos: a, ..advance(m) })
                        }
                    },
                    Ir2Inst::AddCellImm(v) => StepV::Continue(
                        MachineV { tape: m.tape.update(m.pos, m.tape[m.pos].wrapping_add(v)), ..advance(m) },
                    ),
                    Ir2Inst::ReadByteToCell => StepV::NeedInput(m),
                    Ir2Inst::WriteCellLow8 => StepV::Output(advance(m), m.tape[m.pos] as u8),
                }
            } else {
                match b.2 {
                    None => StepV::Fail(
                        RuntimeErrorV::MissingTerminator { function: f.0, block_id: m.block },
                    ),
                    Some(Ir2Terminator::Jump(t)) => StepV::Continue(MachineV { block: t, inst: 0, ..m }),
                    Some(Ir2Terminator::BranchCellZero(z, nz)) => StepV::Continue(
                        MachineV { block: if m.tape[m.pos] == 0 { z } else { nz }, inst: 0, ..m },
                    ),
                    Some(Ir2Terminator::Return) => StepV::Finished(m),
                }
            }
        },
    }
}

/// The machine after a pending read completes with `byte` (`None` at the end
/// of input, which stores 0).
pub open spec fn machine_input(m: MachineV, byte: Option<u8>) -> MachineV {
    let v: i64 = match byte {
        Some(b) => b as i64,
        None => 0,
    };
    MachineV { tape: m.tape.update(m.pos, v), ..advance(m) }
}

/// The result of running from a machine with in-memory streams: the machine,
/// the unread input and the output, when it returned, failed, or ran out of
/// steps.
pub enum RunV {
    Done(MachineV, Seq<u8>, Seq<u8>),
    Failed(RuntimeErrorV, MachineV, Seq<u8>, Seq<u8>),
    Exhausted(MachineV, Seq<u8>, Seq<u8>),
}

/// Running function `f` from `m` for at most `fuel` steps, reading from
/// `input` (its end reads as end of input) and appending to `output`.
pub open spec fn run_machine(f: FuncV, m: MachineV, input: Seq<u8>, output: Seq<u8>, fuel: nat) -> RunV
    decreases fuel,
{
    if fuel == 0 {
        RunV::Exhausted(m, input, output)
    } else {
        match machine_step(f, m) {
            StepV::Continue(m2) => run_machine(f, m2, input, output, (fuel - 1) as nat),
            StepV::NeedInput(m2) => if input.len() > 0 {
                run_machine(
                    f,
                    machine_input(m2, Some(input[0])),
                    input.drop_first(),
                    output,
                    (fuel - 1) as nat,
                )
            } else {
                run_machine(f, machine_input(m2, None), input, output, (fuel - 1) as nat)
            },
            StepV::Output(m2, b) => run_machine(f, m2, input, output.push(b), (fuel - 1) as nat),
            StepV::Finished(m2) => RunV::Done(m2, input, output),
            StepV::Fail(e) => RunV::Failed(e, m, input, output),
        }
    }
}

/// Whether the function named `entry` is the function at index `i`.
pub open spec fn is_entry(fs: Seq<FuncV>, i: int) -> bool {
    0 <= i < fs.len() && fs[i].0 == ENTRY_FUNCTION_NAME@
}

/// The index of the entry function of `fs`: there must be exactly one
/// function named `entry`.
pub open spec fn select_entry(fs: Seq<FuncV>) -> Result<int, RuntimeErrorV> {
    if exists|i: int, j: int| i < j && is_entry(fs, i) && is_entry(fs, j) {
        Err(RuntimeErrorV::DuplicateEntryFunction { name: ENTRY_FUNCTION_NAME@ })
    } else if exists|i: int| is_entry(fs, i) {
        Ok(choose|i: int| is_entry(fs, i))
    } else {
        Err(RuntimeErrorV::EntryFunctionNotFound { name: ENTRY_FUNCTION_NAME@ })
    }
}

/// Whether block `j` of `bs` repeats the identifier of an earlier block.
pub open spec fn repeats_id(bs: Seq<BlockV>, j: int) -> bool {
    0 <= j < bs.len() && exists|i: int| 0 <= i < j && bs[i].0 == bs[j].0
}

/// Whether block `j` is the first of `bs` that repeats an identifier.
pub open spec fn first_repeat(bs: Seq<BlockV>, j: int) -> bool {
    repeats_id(bs, j) && forall|k: int| 0 <= k < j ==> !repeats_id(bs, k)
}

/// Whether `f` can be run: it has blocks, no identifier repeats, and its entry
/// block exists; otherwise the error that checking it meets first.
pub open spec fn check_function(f: FuncV) -> Result<(), RuntimeErrorV> {
    if f.2.len() == 0 {
        Err(RuntimeErrorV::EntryBlockNotFound { function: f.0, entry: f.1 })
    } else if exists|j: int| first_repeat(f.2, j) {
        let j = choose|j: int| first_repeat(f.2, j);
        Err(RuntimeErrorV::DuplicateBlockId { function: f.0, block_id: f.2[j].0 })
    } else if find_block(f.2, f.1) is None {
        Err(RuntimeErrorV::EntryBlockNotFound { function: f.0, entry: f.1 })
    } else {
        Ok(())
    }
}

/// Running program `p` from machine `m` with in-memory streams: the function
/// named `entry` is selected and checked, then run from its entry block for at
/// most `step_limit()` steps.
pub open spec fn run_program(p: Seq<FuncV>, m: MachineV, input: Seq<u8>, output: Seq<u8>) -> RunV {
    match select_entry(p) {
        Err(e) => RunV::Failed(e, m, input, output),
        Ok(i) => match check_function(p[i]) {
            Err(e) => RunV::Failed(e, m, input, output),
            Ok(()) => run_machine(p[i], MachineV { block: p[i].1, inst: 0, ..m }, input, output, step_limit()),
        },
    }
}

/// Whether `r`, with the machine `m` and the streams `input` and `output`
/// that a run left, is what `res` describes. Running out of steps is
/// reported as `StepLimitExceeded`.
pub open spec fn run_reports(
    res: RunV,
    r: Result<(), RuntimeError>,
    m: MachineV,
    input: Seq<u8>,
    output: Seq<u8>,
) -> bool {
    match res {
        RunV::Done(m2, i2, o2) => r is Ok && m == m2 && input == i2 && output == o2,
        RunV::Failed(e, m2, i2, o2) => r matches Err(x) && x@ == e && m == m2 && input == i2
            && output == o2,
        RunV::Exhausted(m2, i2, o2) => r matches Err(x) && x@ == (RuntimeErrorV::StepLimitExceeded {
            steps: u64::MAX,
        }) && m == m2 && input == i2 && output == o2,
    }
}

/// The number of steps `Status::run` takes at most.
pub open spec fn step_limit() -> nat {
    u64::MAX as nat
}

/// The machine, its streams and its logger.
pub struct Status {
    tape: Vec<i64>,
    pos: i64,
    cur_block_id: BlockId,
    cur_inst: usize,
    logger: Option<Logger>,
    input: Vec<u8>,
    input_pos: usize,
    output: Vec<u8>,
}

/// The threshold of the attached logger, if any.
pub open spec fn log_threshold(l: Option<Logger>) -> LogLevel {
    match l {
        Some(a) => a.spec_threshold(),
        None => LogLevel::Panic,
    }
}

/// Whether `new` is `old` with `lines` queued: the same threshold and the
/// lines appended when a logger is attached, and still no logger otherwise.
pub open spec fn logged(old: Option<Logger>, new: Option<Logger>, lines: Seq<Seq<char>>) -> bool {
    match (old, new) {
        (None, None) => true,
        (Some(a), Some(b)) => a.spec_threshold() == b.spec_threshold() && b.pending() == a.pending()
            + lines,
        _ => false,
    }
}

/// The lines of a machine record at `level`, on a logger of threshold `t`.
pub open spec fn vm_line(t: LogLevel, level: LogLevel, code: Seq<char>, detail: Seq<char>) -> Seq<
    Seq<char>,
> {
    emitted_lines(t, level, "BFVM"@, None, code, detail)
}

/// The debug text of an instruction, as `{:?}` shows it.
pub open spec fn inst_debug(i: Ir2Inst) -> Seq<char> {
    match i {
        Ir2Inst::AddPtrImm(v) => "AddPtrImm("@ + int_dec(v as int) + ")"@,
        Ir2Inst::AddCellImm(v) => "AddCellImm("@ + int_dec(v as int) + ")"@,
        Ir2Inst::ReadByteToCell => "ReadByteToCell"@,
        Ir2Inst::WriteCellLow8 => "WriteCellLow8"@,
    }
}

/// The debug text of a terminator, as `{:?}` shows it.
pub open spec fn term_debug(t: Ir2Terminator) -> Seq<char> {
    match t {
        Ir2Terminator::Jump(x) => "Jump("@ + int_dec(x as int) + ")"@,
        Ir2Terminator::BranchCellZero(z, nz) => "BranchCellZero("@ + int_dec(z as int) + ", "@
            + int_dec(nz as int) + ")"@,
        Ir2Terminator::Return => "Return"@,
    }
}

/// The trace lines of one step of function `f` from machine `m`, on a logger
/// of threshold `t`: entering a block, the instruction and its effect, or the
/// terminator and a return.
pub open spec fn step_log(t: LogLevel, f: FuncV, m: MachineV) -> Seq<Seq<char>> {
    match find_block(f.2, m.block) {
        None => Seq::empty(),
        Some(bi) => {
            let b = f.2[bi];
            let enter = if m.inst == 0 {
                vm_line(
                    t,
                    LogLevel::Verbose,
                    "V_BFVM_ENTER_BLOCK"@,
                    "function="@ + f.0 + " block="@ + int_dec(b.0 as int) + " ptr="@ + int_dec(m.pos)
                        + " cell="@ + int_dec(m.tape[m.pos] as int),
                )
            } else {
                Seq::empty()
            };
            if 0 <= m.inst < b.1.len() {
                let i = b.1[m.inst];
                let exec = vm_line(
                    t,
                    LogLevel::Debug,
                    "D_BFVM_EXEC_INST"@,
                    "function="@ + f.0 + " block="@ + int_dec(b.0 as int) + " inst="@ + inst_debug(i),
                );
                enter + exec + match i {
                    Ir2Inst::AddPtrImm(v) => if m.pos + v < 0 || m.pos + v >= BFCAP {
                        Seq::empty()
                    } else {
                        vm_line(
                            t,
                            LogLevel::Debug,
                            "D_BFVM_PTR_MOVE"@,
                            "ptr moved by "@ + int_dec(v as int) + " -> "@ + int_dec(m.pos + v),
                        )
                    },
                    Ir2Inst::AddCellImm(v) => vm_line(
                        t,
                        LogLevel::Debug,
                        "D_BFVM_CELL_ADD"@,
                        "cell["@ + int_dec(m.pos) + "] "@ + int_dec(m.tape[m.pos] as int) + " + "@
                            + int_dec(v as int) + " -> "@ + int_dec(
                            m.tape[m.pos].wrapping_add(v) as int,
                        ),
                    ),
                    Ir2Inst::ReadByteToCell => Seq::empty(),
                    Ir2Inst::WriteCellLow8 => Seq::empty(),
                }
            } else {
                match b.2 {
                    None => enter,
                    Some(term) => enter + vm_line(
                        t,
                        LogLevel::Debug,
                        "D_BFVM_TERMINATOR"@,
                        "function="@ + f.0 + " block="@ + int_dec(m.block as int) + " term="@
                            + term_debug(term),
                    ) + if term is Return {
                        vm_line(t, LogLevel::Info, "I_BFVM_RETURN"@, "function="@ + f.0 + " returned"@)
                    } else {
                        Seq::empty()
                    },
                }
            }
        },
    }
}

/// The trace line of a write of the low byte of the cell under the pointer
/// of machine `m`, once the byte has been written.
pub open spec fn output_log(t: LogLevel, m: MachineV) -> Seq<Seq<char>> {
    vm_line(
        t,
        LogLevel::Verbose,
        "V_BFVM_STDOUT_WRITE"@,
        "stdout byte "@ + int_dec((m.tape[m.pos] as u8) as int) + " from cell["@ + int_dec(m.pos)
            + "]"@,
    )
}

/// The trace line of a read completed with `byte` on machine `m`.
pub open spec fn input_log(t: LogLevel, m: MachineV, byte: Option<u8>) -> Seq<Seq<char>> {
    match byte {
        Some(b) => vm_line(
            t,
            LogLevel::Verbose,
            "V_BFVM_STDIN_READ"@,
            "stdin byte "@ + int_dec(b as int) + " -> cell["@ + int_dec(m.pos) + "]"@,
        ),
        None => vm_line(
            t,
            LogLevel::Verbose,
            "V_BFVM_STDIN_EOF"@,
            "stdin EOF -> cell["@ + int_dec(m.pos) + "] set to 0"@,
        ),
    }
}

/// The trace lines of preparing a run of `p`: the selected entry function,
/// and entering it when it has blocks.
pub open spec fn start_log(t: LogLevel, p: Seq<FuncV>) -> Seq<Seq<char>> {
    match select_entry(p) {
        Err(_) => Seq::empty(),
        Ok(i) => vm_line(
            t,
            LogLevel::Info,
            "I_BFVM_SELECT_ENTRY"@,
            "selected entry function="@ + p[i].0,
        ) + if p[i].2.len() > 0 {
            vm_line(
                t,
                LogLevel::Info,
                "I_BFVM_ENTER_FUNCTION"@,
                "function="@ + p[i].0 + " entry="@ + int_dec(p[i].1 as int),
            )
        } else {
            Seq::empty()
        },
    }
}

/// The trace lines of running function `f` from `m` for at most `fuel`
/// steps with the queued input `input`, as `run_machine` runs it.
pub open spec fn run_log(t: LogLevel, f: FuncV, m: MachineV, input: Seq<u8>, fuel: nat) -> Seq<
    Seq<char>,
>
    decreases fuel,
{
    if fuel == 0 {
        Seq::empty()
    } else {
        step_log(t, f, m) + match machine_step(f, m) {
            StepV::Continue(m2) => run_log(t, f, m2, input, (fuel - 1) as nat),
            StepV::NeedInput(m2) => if input.len() > 0 {
                input_log(t, m2, Some(input[0])) + run_log(
                    t,
                    f,
                    machine_input(m2, Some(input[0])),
                    input.drop_first(),
                    (fuel - 1) as nat,
                )
            } else {
                input_log(t, m2, None) + run_log(t, f, machine_input(m2, None), input, (fuel - 1) as nat)
            },
            StepV::Output(m2, _) => output_log(t, m2) + run_log(t, f, m2, input, (fuel - 1) as nat),
            StepV::Finished(_) => Seq::empty(),
            StepV::Fail(_) => Seq::empty(),
        }
    }
}

/// The trace lines of running program `p` from `m` with the queued input
/// `input`, as `run_program` runs it.
pub open spec fn program_log(t: LogLevel, p: Seq<FuncV>, m: MachineV, input: Seq<u8>) -> Seq<
    Seq<char>,
> {
    start_log(t, p) + match select_entry(p) {
        Err(_) => Seq::empty(),
        Ok(i) => match check_function(p[i]) {
            Err(_) => Seq::empty(),
            Ok(()) => run_log(t, p[i], MachineV { block: p[i].1, inst: 0, ..m }, input, step_limit()),
        },
    }
}

impl Status {
    /// The machine's state.
    pub closed spec fn machine(&self) -> MachineV {
        MachineV {
            tape: self.tape@,
            pos: self.pos as int,
            block: self.cur_block_id,
            inst: self.cur_inst as int,
        }
    }

    /// The bytes queued for reading and not yet read.
    pub closed spec fn pending_input(&self) -> Seq<u8> {
        self.input@.skip(self.input_pos as int)
    }

    /// The bytes written and not yet taken.
    pub closed spec fn written(&self) -> Seq<u8> {
        self.output@
    }

    /// The logger, if one is attached.
    pub closed spec fn spec_logger(&self) -> Option<Logger> {
        self.logger
    }

    /// The machine's invariant: a tape of `BFCAP` cells, the pointer on it,
    /// and the read position within the input.
    pub closed spec fn wf(&self) -> bool {
        &&& self.tape@.len() == BFCAP
        &&& 0 <= self.pos < BFCAP
        &&& self.input_pos <= self.input@.len()
    }

    /// A machine with a zeroed tape, the pointer at cell 0, no logger and
    /// empty streams.
    pub fn new() -> (r: Status)
        ensures
            r.wf(),
            r.machine() == (MachineV { tape: Seq::new(BFCAP as nat, |i: int| 0i64), pos: 0, block: 0, inst: 0 }),
            r.pending_input() == Seq::<u8>::empty(),
            r.written() == Seq::<u8>::empty(),
            r.spec_logger() is None,
    {
        let mut tape: Vec<i64> = Vec::new();
        let mut i: usize = 0;
        while i < BFCAP
            invariant
                i <= BFCAP,
                tape@ == Seq::new(i as nat, |k: int| 0i64),
            decreases BFCAP - i,
        {
            tape.push(0);
            i = i + 1;
            assert(tape@ =~= Seq::new(i as nat, |k: int| 0i64));
        }
        let input: Vec<u8> = Vec::new();
        let r = Status {
            tape,
            pos: 0,
            cur_block_id: 0,
            cur_inst: 0,
            logger: None,
            input,
            input_pos: 0,
            output: Vec::new(),
        };
        assert(r.pending_input() =~= Seq::<u8>::empty());
        r
    }

    /// As [`Status::new`], with `logger` attached.
    pub fn with_logger(logger: Logger) -> (r: Status)
        ensures
            r.wf(),
            r.machine() == (MachineV { tape: Seq::new(BFCAP as nat, |i: int| 0i64), pos: 0, block: 0, inst: 0 }),
            r.pending_input() == Seq::<u8>::empty(),
            r.written() == Seq::<u8>::empty(),
            r.spec_logger() == Some(logger),
    {
        let mut vm = Status::new();
        vm.logger = Some(logger);
        vm
    }

    pub fn attach_logger(&mut self, logger: Logger)
        ensures
            final(self).spec_logger() == Some(logger),
            final(self).machine() == old(self).machine(),
            final(self).pending_input() == old(self).pending_input(),
            final(self).written() == old(self).written(),
            old(self).wf() ==> final(self).wf(),
    {
        self.logger = Some(logger);
    }

    pub fn detach_logger(&mut self)
        ensures
            final(self).spec_logger() is None,
            final(self).machine() == old(self).machine(),
            final(self).pending_input() == old(self).pending_input(),
            final(self).written() == old(self).written(),
            old(self).wf() ==> final(self).wf(),
    {
        self.logger = None;
    }

    /// Takes the log lines queued on the attached logger, if any.
    pub fn take_log_lines(&mut self) -> (r: Vec<String>)
        ensures
            final(self).machine() == old(self).machine(),
            final(self).pending_input() == old(self).pending_input(),
            final(self).written() == old(self).written(),
            old(self).wf() ==> final(self).wf(),
            match old(self).spec_logger() {
                Some(l) => {
                    &&& r@.map_values(|s: String| s@) == l.pending()
                    &&& final(self).spec_logger() matches Some(l2)
                    &&& l2.spec_threshold() == l.spec_threshold()
                    &&& l2.pending() == Seq::<Seq<char>>::empty()
                },
                None => r@.len() == 0 && final(self).spec_logger() is None,
            },
    {
        match &mut self.logger {
            Some(l) => l.take_lines(),
            None => Vec::new(),
        }
    }

    /// Queues `bytes` to be read after the bytes already queued.
    pub fn feed_input(&mut self, bytes: &[u8])
        requires
            old(self).wf(),
        ensures
            final(self).pending_input() == old(self).pending_input() + bytes@,
            final(self).machine() == old(self).machine(),
            final(self).written() == old(self).written(),
            final(self).spec_logger() == old(self).spec_logger(),
            final(self).wf(),
    {
        let n = bytes.len();
        let mut i: usize = 0;
        let ghost start = self.input@;
        while i < n
            invariant
                i <= n,
                n == bytes@.len(),
                self.input@ == start + bytes@.take(i as int),
                self.input_pos == old(self).input_pos,
                self.input_pos <= start.len(),
                self.tape@.len() == BFCAP,
                self.tape == old(self).tape,
                self.pos == old(self).pos,
                self.cur_block_id == old(self).cur_block_id,
                self.cur_inst == old(self).cur_inst,
                self.output == old(self).output,
                self.logger == old(self).logger,
                start == old(self).input@,
            decreases n - i,
        {
            self.input.push(bytes[i]);
            i = i + 1;
            assert(self.input@ =~= start + bytes@.take(i as int));
        }
        assert(bytes@.take(n as int) =~= bytes@);
        assert(self.pending_input() =~= old(self).pending_input() + bytes@);
    }

    /// Takes the bytes written so far.
    pub fn take_output(&mut self) -> (r: Vec<u8>)
        ensures
            r@ == old(self).written(),
            final(self).written() == Seq::<u8>::empty(),
            final(self).machine() == old(self).machine(),
            final(self).pending_input() == old(self).pending_input(),
            final(self).spec_logger() == old(self).spec_logger(),
            old(self).wf() ==> final(self).wf(),
    {
        let mut r: Vec<u8> = Vec::new();
        std::mem::swap(&mut r, &mut self.output);
        r
    }

    /// The value of cell `index`.
    pub fn cell(&self, index: usize) -> (r: i64)
        requires
            self.wf(),
            index < BFCAP,
        ensures
            r == self.machine().tape[index as int],
    {
        self.tape[index]
    }

    /// Sets cell `index` to `value`.
    pub fn set_cell(&mut self, index: usize, value: i64)
        requires
            old(self).wf(),
            index < BFCAP,
        ensures
            final(self).wf(),
            final(self).machine() == (MachineV { tape: old(self).machine().tape.update(index as int, value), ..old(self).machine() }),
            final(self).pending_input() == old(self).pending_input(),
            final(self).written() == old(self).written(),
            final(self).spec_logger() == old(self).spec_logger(),
    {
        self.tape.set(index, value);
    }

    /// The pointer.
    pub fn pointer(&self) -> (r: i64)
        ensures
            r == self.machine().pos,
    {
        self.pos
    }

    fn emit_trace(&mut self, level: LogLevel, code: &str, detail: &Vec<char>)
        ensures
            final(self).machine() == old(self).machine(),
            final(self).pending_input() == old(self).pending_input(),
            final(self).written() == old(self).written(),
            final(self).input == old(self).input,
            final(self).input_pos == old(self).input_pos,
            final(self).tape == old(self).tape,
            final(self).pos == old(self).pos,
            logged(
                old(self).logger,
                final(self).logger,
                vm_line(log_threshold(old(self).logger), level, code@, detail@),
            ),
    {
        match &mut self.logger {
            Some(logger) => {
                let s = string_from_chars(detail);
                logger.emit_raw(level, "BFVM", code, s.as_str());
            },
            None => {},
        }
    }
}

proof fn lemma_logged_refl(a: Option<Logger>)
    ensures
        logged(a, a, Seq::empty()),
{
    if let Some(x) = a {
        assert(x.pending() + Seq::<Seq<char>>::empty() =~= x.pending());
    }
}

proof fn lemma_logged_trans(
    a: Option<Logger>,
    b: Option<Logger>,
    c: Option<Logger>,
    x: Seq<Seq<char>>,
    y: Seq<Seq<char>>,
)
    requires
        logged(a, b, x),
        logged(b, c, y),
    ensures
        logged(a, c, x + y),
{
    if let (Some(p), Some(q), Some(r)) = (a, b, c) {
        assert(r.pending() =~= p.pending() + (x + y));
    }
}

proof fn lemma_logged_threshold(a: Option<Logger>, b: Option<Logger>, x: Seq<Seq<char>>)
    requires
        logged(a, b, x),
    ensures
        log_threshold(b) == log_threshold(a),
{
}

/// Debug text of an instruction, as `{:?}` shows it.
fn push_inst_debug(out: &mut Vec<char>, inst: Ir2Inst)
    ensures
        final(out)@ == old(out)@ + inst_debug(inst),
{
    let ghost o = out@;
    match inst {
        Ir2Inst::AddPtrImm(v) => {
            push_str(out, "AddPtrImm(");
            push_i64(out, v);
            push_str(out, ")");
        },
        Ir2Inst::AddCellImm(v) => {
            push_str(out, "AddCellImm(");
            push_i64(out, v);
            push_str(out, ")");
        },
        Ir2Inst::ReadByteToCell => push_str(out, "ReadByteToCell"),
        Ir2Inst::WriteCellLow8 => push_str(out, "WriteCellLow8"),
    }
    assert(out@ =~= o + inst_debug(inst));
}

/// Debug text of a terminator, as `{:?}` shows it.
fn push_term_debug(out: &mut Vec<char>, term: Ir2Terminator)
    ensures
        final(out)@ == old(out)@ + term_debug(term),
{
    let ghost o = out@;
    match term {
        Ir2Terminator::Jump(t) => {
            push_str(out, "Jump(");
            push_usize(out, t);
            push_str(out, ")");
        },
        Ir2Terminator::BranchCellZero(z, nz) => {
            push_str(out, "BranchCellZero(");
            push_usize(out, z);
            push_str(out, ", ");
            push_usize(out, nz);
            push_str(out, ")");
        },
        Ir2Terminator::Return => push_str(out, "Return"),
    }
    assert(out@ =~= o + term_debug(term));
}

/// A block with identifier `id` has a first such block.
proof fn lemma_first_with_id_exists(bs: Seq<BlockV>, id: usize, j: int)
    requires
        0 <= j < bs.len(),
        bs[j].0 == id,
    ensures
        exists|k: int| first_with_id(bs, id, k),
    decreases j,
{
    if exists|i: int| 0 <= i < j && bs[i].0 == id {
        let i = choose|i: int| 0 <= i < j && bs[i].0 == id;
        lemma_first_with_id_exists(bs, id, i);
    } else {
        assert(first_with_id(bs, id, j));
    }
}

/// The index of the first block of `blocks` whose identifier is `id`.
fn find_block_index(blocks: &Vec<Ir2Block>, id: BlockId) -> (r: Option<usize>)
    ensures
        match r {
            Some(i) => find_block(blocks_view(blocks@), id) == Some(i as int),
            None => find_block(blocks_view(blocks@), id) is None,
        },
{
    let ghost bs = blocks_view(blocks@);
    let n = blocks.len();
    let mut i: usize = 0;
    while i < n
        invariant
            i <= n,
            n == blocks@.len(),
            bs == blocks_view(blocks@),
            forall|j: int| 0 <= j < i ==> bs[j].0 != id,
        decreases n - i,
    {
        if blocks[i].id == id {
            proof {
                assert(first_with_id(bs, id, i as int));
                let c = choose|k: int| first_with_id(bs, id, k);
                assert(first_with_id(bs, id, c));
                if c < i {
                    assert(bs[c].0 != id);
                }
                if c > i {
                    assert(bs[i as int].0 != id);
                }
            }
            return Some(i);
        }
        i = i + 1;
    }
    proof {
        assert forall|k: int| !first_with_id(bs, id, k) by {
            if 0 <= k < bs.len() {
                assert(bs[k].0 != id);
            }
        }
    }
    None
}

impl Status {
    /// Whether a logger is attached.
    fn tracing(&self) -> (b: bool)
        ensures
            b == self.logger is Some,
    {
        self.logger.is_some()
    }

    /// Executes one step of function `func`: the next instruction of the
    /// current block, or its terminator once its instructions are done. A read
    /// leaves the machine where it is and asks for a byte
    /// (`VmAction::NeedInput`, completed by [`Status::complete_input`]); a
    /// write advances and hands the byte to the driver (`VmAction::Output`).
    /// A failing step leaves the machine unchanged. The step's trace lines
    /// are queued on the attached logger.
    pub fn step(&mut self, func: &Ir2Function) -> (r: Result<VmAction, RuntimeError>)
        requires
            old(self).wf(),
        ensures
            final(self).wf(),
            final(self).pending_input() == old(self).pending_input(),
            final(self).written() == old(self).written(),
            logged(
                old(self).spec_logger(),
                final(self).spec_logger(),
                step_log(log_threshold(old(self).spec_logger()), func@, old(self).machine()),
            ),
            match machine_step(func@, old(self).machine()) {
                StepV::Continue(m) => r == Ok::<VmAction, RuntimeError>(VmAction::Continue)
                    && final(self).machine() == m,
                StepV::NeedInput(m) => r == Ok::<VmAction, RuntimeError>(VmAction::NeedInput)
                    && final(self).machine() == m,
                StepV::Output(m, b) => r == Ok::<VmAction, RuntimeError>(VmAction::Output(b))
                    && final(self).machine() == m,
                StepV::Finished(m) => r == Ok::<VmAction, RuntimeError>(VmAction::Finished)
                    && final(self).machine() == m,
                StepV::Fail(e) => r matches Err(x) && x@ == e && final(self).machine()
                    == old(self).machine(),
            },
    {
        proof {
            lemma_logged_refl(self.logger);
        }
        let ghost l0 = self.logger;
        let ghost t = log_threshold(l0);
        let ghost f = func@;
        let ghost m0 = self.machine();
        let bi = match find_block_index(&func.blocks, self.cur_block_id) {
            None => {
                return Err(
                    RuntimeError::UnknownBlockId {
                        function: func.name.clone(),
                        block_id: self.cur_block_id,
                    },
                );
            },
            Some(i) => i,
        };
        let block = &func.blocks[bi];
        assert(f.2[bi as int] == block@);
        let idx = self.pos as usize;
        let ghost enter: Seq<Seq<char>> = if m0.inst == 0 {
            vm_line(
                t,
                LogLevel::Verbose,
                "V_BFVM_ENTER_BLOCK"@,
                "function="@ + f.0 + " block="@ + int_dec(block.id as int) + " ptr="@ + int_dec(m0.pos)
                    + " cell="@ + int_dec(m0.tape[m0.pos] as int),
            )
        } else {
            Seq::empty()
        };
        if self.cur_inst == 0 && self.tracing() {
            let mut d: Vec<char> = Vec::new();
            push_str(&mut d, "function=");
            push_str(&mut d, func.name.as_str());
            push_str(&mut d, " block=");
            push_usize(&mut d, block.id);
            push_str(&mut d, " ptr=");
            push_i64(&mut d, self.pos);
            push_str(&mut d, " cell=");
            push_i64(&mut d, self.tape[idx]);
            assert(d@ =~= "function="@ + f.0 + " block="@ + int_dec(block.id as int) + " ptr="@
                + int_dec(m0.pos) + " cell="@ + int_dec(m0.tape[m0.pos] as int));
            self.emit_trace(LogLevel::Verbose, "V_BFVM_ENTER_BLOCK", &d);
        }
        let ghost l1 = self.logger;
        assert(logged(l0, l1, enter));
        if self.cur_inst < block.insts.len() {
            let inst = block.insts[self.cur_inst];
            let ghost exec = vm_line(
                t,
                LogLevel::Debug,
                "D_BFVM_EXEC_INST"@,
                "function="@ + f.0 + " block="@ + int_dec(block.id as int) + " inst="@ + inst_debug(inst),
            );
            proof {
                lemma_logged_refl(l1);
            }
            if self.tracing() {
                let mut d: Vec<char> = Vec::new();
                push_str(&mut d, "function=");
                push_str(&mut d, func.name.as_str());
                push_str(&mut d, " block=");
                push_usize(&mut d, block.id);
                push_str(&mut d, " inst=");
                push_inst_debug(&mut d, inst);
                assert(d@ =~= "function="@ + f.0 + " block="@ + int_dec(block.id as int) + " inst="@
                    + inst_debug(inst));
                self.emit_trace(LogLevel::Debug, "D_BFVM_EXEC_INST", &d);
            }
            let ghost l2 = self.logger;
            proof {
                lemma_logged_trans(l0, l1, l2, enter, exec);
            }
            match inst {
                Ir2Inst::AddPtrImm(v) => {
                    let attempted: i128 = self.pos as i128 + v as i128;
                    if attempted < 0 || attempted >= BFCAP as i128 {
                        assert(enter + exec + Seq::<Seq<char>>::empty() =~= enter + exec);
                        return Err(
                            RuntimeError::PtrOutOfBounds {
                                current: self.pos,
                                delta: v,
                                attempted,
                                min: 0,
                                max: (BFCAP - 1) as i128,
                            },
                        );
                    }
                    self.pos = attempted as i64;
                    self.cur_inst = self.cur_inst + 1;
                    let ghost mv = vm_line(
                        t,
                        LogLevel::Debug,
                        "D_BFVM_PTR_MOVE"@,
                        "ptr moved by "@ + int_dec(v as int) + " -> "@ + int_dec(m0.pos + v),
                    );
                    proof {
                        lemma_logged_refl(l2);
                    }
                    if self.tracing() {
                        let mut d: Vec<char> = Vec::new();
                        push_str(&mut d, "ptr moved by ");
                        push_i64(&mut d, v);
                        push_str(&mut d, " -> ");
                        push_i64(&mut d, self.pos);
                        assert(d@ =~= "ptr moved by "@ + int_dec(v as int) + " -> "@ + int_dec(m0.pos + v));
                        self.emit_trace(LogLevel::Debug, "D_BFVM_PTR_MOVE", &d);
                    }
                    proof {
                        lemma_logged_trans(l0, l2, self.logger, enter + exec, mv);
                    }
                    Ok(VmAction::Continue)
                },
                Ir2Inst::AddCellImm(v) => {
                    let before = self.tape[idx];
                    let after = before.wrapping_add(v);
                    self.tape.set(idx, after);
                    self.cur_inst = self.cur_inst + 1;
                    let ghost add = vm_line(
                        t,
                        LogLevel::Debug,
                        "D_BFVM_CELL_ADD"@,
                        "cell["@ + int_dec(m0.pos) + "] "@ + int_dec(m0.tape[m0.pos] as int) + " + "@
                            + int_dec(v as int) + " -> "@ + int_dec(
                            m0.tape[m0.pos].wrapping_add(v) as int,
                        ),
                    );
                    proof {
                        lemma_logged_refl(l2);
                    }
                    if self.tracing() {
                        let mut d: Vec<char> = Vec::new();
                        push_str(&mut d, "cell[");
                        push_i64(&mut d, self.pos);
                        push_str(&mut d, "] ");
                        push_i64(&mut d, before);
                        push_str(&mut d, " + ");
                        push_i64(&mut d, v);
                        push_str(&mut d, " -> ");
                        push_i64(&mut d, after);
                        assert(d@ =~= "cell["@ + int_dec(m0.pos) + "] "@ + int_dec(m0.tape[m0.pos] as int)
                            + " + "@ + int_dec(v as int) + " -> "@ + int_dec(
                            m0.tape[m0.pos].wrapping_add(v) as int,
                        ));
                        self.emit_trace(LogLevel::Debug, "D_BFVM_CELL_ADD", &d);
                    }
                    proof {
                        lemma_logged_trans(l0, l2, self.logger, enter + exec, add);
                    }
                    Ok(VmAction::Continue)
                },
                Ir2Inst::ReadByteToCell => {
                    assert(enter + exec + Seq::<Seq<char>>::empty() =~= enter + exec);
                    Ok(VmAction::NeedInput)
                },
                Ir2Inst::WriteCellLow8 => {
                    let b = self.tape[idx] as u8;
                    self.cur_inst = self.cur_inst + 1;
                    assert(enter + exec + Seq::<Seq<char>>::empty() =~= enter + exec);
                    Ok(VmAction::Output(b))
                },
            }
        } else {
            match block.term {
                None => Err(
                    RuntimeError::MissingTerminator {
                        function: func.name.clone(),
                        block_id: self.cur_block_id,
                    },
                ),
                Some(term) => {
                    let ghost tl = vm_line(
                        t,
                        LogLevel::Debug,
                        "D_BFVM_TERMINATOR"@,
                        "function="@ + f.0 + " block="@ + int_dec(m0.block as int) + " term="@
                            + term_debug(term),
                    );
                    proof {
                        lemma_logged_refl(l1);
                    }
                    if self.tracing() {
                        let mut d: Vec<char> = Vec::new();
                        push_str(&mut d, "function=");
                        push_str(&mut d, func.name.as_str());
                        push_str(&mut d, " block=");
                        push_usize(&mut d, self.cur_block_id);
                        push_str(&mut d, " term=");
                        push_term_debug(&mut d, term);
                        assert(d@ =~= "function="@ + f.0 + " block="@ + int_dec(m0.block as int)
                            + " term="@ + term_debug(term));
                        self.emit_trace(LogLevel::Debug, "D_BFVM_TERMINATOR", &d);
                    }
                    let ghost l2 = self.logger;
                    proof {
                        lemma_logged_trans(l0, l1, l2, enter, tl);
                    }
                    match term {
                        Ir2Terminator::Jump(x) => {
                            self.cur_block_id = x;
                            self.cur_inst = 0;
                            assert(enter + tl + Seq::<Seq<char>>::empty() =~= enter + tl);
                            Ok(VmAction::Continue)
                        },
                        Ir2Terminator::BranchCellZero(z, nz) => {
                            self.cur_block_id = if self.tape[idx] == 0 {
                                z
                            } else {
                                nz
                            };
                            self.cur_inst = 0;
                            assert(enter + tl + Seq::<Seq<char>>::empty() =~= enter + tl);
                            Ok(VmAction::Continue)
                        },
                        Ir2Terminator::Return => {
                            let ghost rl = vm_line(
                                t,
                                LogLevel::Info,
                                "I_BFVM_RETURN"@,
                                "function="@ + f.0 + " returned"@,
                            );
                            proof {
                                lemma_logged_refl(l2);
                            }
                            if self.tracing() {
                                let mut d: Vec<char> = Vec::new();
                                push_str(&mut d, "function=");
                                push_str(&mut d, func.name.as_str());
                                push_str(&mut d, " returned");
                                assert(d@ =~= "function="@ + f.0 + " returned"@);
                                self.emit_trace(LogLevel::Info, "I_BFVM_RETURN", &d);
                            }
                            proof {
                                lemma_logged_trans(l0, l2, self.logger, enter + tl, rl);
                            }
                            Ok(VmAction::Finished)
                        },
                    }
                },
            }
        }
    }
}

/// The name of the entry function, as a `String`.
fn entry_name() -> (r: String)
    ensures
        r@ == ENTRY_FUNCTION_NAME@,
{
    ENTRY_FUNCTION_NAME.to_owned()
}

/// The index of the only function named `entry` of `fs`, or the error when
/// there is none or more than one.
fn select_entry_index(fs: &Vec<Ir2Function>) -> (r: Result<usize, RuntimeError>)
    ensures
        match select_entry(funcs_view(fs@)) {
            Ok(i) => r matches Ok(j) && j == i,
            Err(e) => r matches Err(x) && x@ == e,
        },
{
    let ghost v = funcs_view(fs@);
    let n = fs.len();
    let mut found: Option<usize> = None;
    let mut i: usize = 0;
    while i < n
        invariant
            i <= n,
            n == fs@.len(),
            v == funcs_view(fs@),
            match found {
                None => forall|k: int| 0 <= k < i ==> !is_entry(v, k),
                Some(j) => j < i && is_entry(v, j as int) && forall|k: int|
                    0 <= k < i && k != j ==> !is_entry(v, k),
            },
        decreases n - i,
    {
        let hit = str_eq(fs[i].name.as_str(), ENTRY_FUNCTION_NAME);
        assert(v[i as int] == fs@[i as int]@);
        if hit {
            assert(is_entry(v, i as int));
            match found {
                Some(j) => {
                    assert(is_entry(v, j as int) && is_entry(v, i as int) && (j as int) < (i as int));
                    return Err(RuntimeError::DuplicateEntryFunction { name: entry_name() });
                },
                None => {
                    found = Some(i);
                },
            }
        } else {
            assert(!is_entry(v, i as int));
        }
        i = i + 1;
    }
    match found {
        None => {
            assert(!exists|k: int| is_entry(v, k));
            Err(RuntimeError::EntryFunctionNotFound { name: entry_name() })
        },
        Some(j) => {
            proof {
                assert(!exists|a: int, b: int| a < b && is_entry(v, a) && is_entry(v, b));
                assert(is_entry(v, j as int));
                let c = choose|k: int| is_entry(v, k);
                assert(is_entry(v, c));
                assert(c == j);
            }
            Ok(j)
        },
    }
}

/// Checks that `func` can be run, as [`check_function`] says.
fn check_runnable(func: &Ir2Function) -> (r: Result<(), RuntimeError>)
    ensures
        match check_function(func@) {
            Ok(()) => r is Ok,
            Err(e) => r matches Err(x) && x@ == e,
        },
{
    let ghost bs = func@.2;
    if func.blocks.len() == 0 {
        return Err(RuntimeError::EntryBlockNotFound { function: func.name.clone(), entry: func.entry });
    }
    let n = func.blocks.len();
    let mut j: usize = 0;
    while j < n
        invariant
            j <= n,
            n == func.blocks@.len(),
            bs == func@.2,
            forall|k: int| 0 <= k < j ==> !repeats_id(bs, k),
        decreases n - j,
    {
        let id = func.blocks[j].id;
        assert(bs[j as int].0 == id);
        let first = find_block_index(&func.blocks, id);
        match first {
            Some(i) => {
                proof {
                    assert(first_with_id(bs, id, i as int));
                    if (i as int) > (j as int) {
                        assert(bs[j as int].0 != id);
                    }
                }
                if i < j {
                    proof {
                        assert(bs[i as int].0 == bs[j as int].0);
                        assert(repeats_id(bs, j as int));
                        assert(first_repeat(bs, j as int));
                        let c = choose|c: int| first_repeat(bs, c);
                        assert(first_repeat(bs, c));
                        if c < j {
                            assert(!repeats_id(bs, c));
                        }
                        if c > j {
                            assert(!repeats_id(bs, j as int));
                        }
                    }
                    return Err(RuntimeError::DuplicateBlockId { function: func.name.clone(), block_id: id });
                }
                proof {
                    assert(!repeats_id(bs, j as int)) by {
                        assert forall|k: int| 0 <= k < j implies bs[k].0 != bs[j as int].0 by {
                            assert(bs[k].0 != id);
                        }
                    }
                }
            },
            None => {
                proof {
                    lemma_first_with_id_exists(bs, id, j as int);
                }
            },
        }
        j = j + 1;
    }
    assert(!exists|c: int| first_repeat(bs, c));
    match find_block_index(&func.blocks, func.entry) {
        None => Err(RuntimeError::EntryBlockNotFound { function: func.name.clone(), entry: func.entry }),
        Some(_) => Ok(()),
    }
}


impl Status {
    /// Completes the read that the last step asked for: the cell under the
    /// pointer is set to `byte`, or to 0 at the end of input (`None`), and the
    /// machine moves past the read.
    pub fn complete_input(&mut self, func: &Ir2Function, byte: Option<u8>)
        requires
            old(self).wf(),
            machine_step(func@, old(self).machine()) is NeedInput,
        ensures
            final(self).wf(),
            final(self).machine() == machine_input(old(self).machine(), byte),
            final(self).pending_input() == old(self).pending_input(),
            final(self).written() == old(self).written(),
            logged(
                old(self).spec_logger(),
                final(self).spec_logger(),
                input_log(log_threshold(old(self).spec_logger()), old(self).machine(), byte),
            ),
    {
        proof {
            let bi = find_block(func@.2, self.cur_block_id)->0;
            assert(func.blocks@[bi]@ == func@.2[bi]);
            assert(self.cur_inst < func.blocks@[bi].insts.len());
        }
        let ghost m0 = self.machine();
        let idx = self.pos as usize;
        let v: i64 = match byte {
            Some(b) => b as i64,
            None => 0,
        };
        self.tape.set(idx, v);
        self.cur_inst = self.cur_inst + 1;
        proof {
            lemma_logged_refl(self.logger);
        }
        if self.tracing() {
            let mut d: Vec<char> = Vec::new();
            match byte {
                Some(b) => {
                    push_str(&mut d, "stdin byte ");
                    push_usize(&mut d, b as usize);
                    push_str(&mut d, " -> cell[");
                    push_i64(&mut d, self.pos);
                    push_str(&mut d, "]");
                    assert(d@ =~= "stdin byte "@ + int_dec(b as int) + " -> cell["@ + int_dec(m0.pos)
                        + "]"@);
                    self.emit_trace(LogLevel::Verbose, "V_BFVM_STDIN_READ", &d);
                },
                None => {
                    push_str(&mut d, "stdin EOF -> cell[");
                    push_i64(&mut d, self.pos);
                    push_str(&mut d, "] set to 0");
                    assert(d@ =~= "stdin EOF -> cell["@ + int_dec(m0.pos) + "] set to 0"@);
                    self.emit_trace(LogLevel::Verbose, "V_BFVM_STDIN_EOF", &d);
                },
            }
        }
    }

    /// Records that the byte of the last `VmAction::Output` has been written:
    /// queues its trace line. A driver calls it after a successful write only.
    pub fn complete_output(&mut self)
        requires
            old(self).wf(),
        ensures
            final(self).wf(),
            final(self).machine() == old(self).machine(),
            final(self).pending_input() == old(self).pending_input(),
            final(self).written() == old(self).written(),
            logged(
                old(self).spec_logger(),
                final(self).spec_logger(),
                output_log(log_threshold(old(self).spec_logger()), old(self).machine()),
            ),
    {
        let ghost m0 = self.machine();
        proof {
            lemma_logged_refl(self.logger);
        }
        if self.tracing() {
            let idx = self.pos as usize;
            let b = self.tape[idx] as u8;
            let mut d: Vec<char> = Vec::new();
            push_str(&mut d, "stdout byte ");
            push_usize(&mut d, b as usize);
            push_str(&mut d, " from cell[");
            push_i64(&mut d, self.pos);
            push_str(&mut d, "]");
            assert(d@ =~= "stdout byte "@ + int_dec((m0.tape[m0.pos] as u8) as int) + " from cell["@
                + int_dec(m0.pos) + "]"@);
            self.emit_trace(LogLevel::Verbose, "V_BFVM_STDOUT_WRITE", &d);
        }
    }

    /// Takes the next queued input byte, or `None` when the queue is empty.
    fn next_input(&mut self) -> (r: Option<u8>)
        requires
            old(self).wf(),
        ensures
            final(self).wf(),
            final(self).machine() == old(self).machine(),
            final(self).written() == old(self).written(),
            final(self).logger == old(self).logger,
            old(self).pending_input().len() > 0 ==> r == Some(old(self).pending_input()[0])
                && final(self).pending_input() == old(self).pending_input().drop_first(),
            old(self).pending_input().len() == 0 ==> r is None && final(self).pending_input()
                == old(self).pending_input(),
    {
        if self.input_pos < self.input.len() {
            let b = self.input[self.input_pos];
            self.input_pos = self.input_pos + 1;
            assert(self.pending_input() =~= old(self).pending_input().drop_first());
            Some(b)
        } else {
            None
        }
    }

    /// Prepares a run of `prog`: selects its function named `entry`, checks
    /// that it can be run, and puts the machine at the start of its entry
    /// block. Returns the index of that function; on failure the machine is
    /// unchanged.
    pub fn start(&mut self, prog: &Ir2Program) -> (r: Result<usize, RuntimeError>)
        requires
            old(self).wf(),
        ensures
            final(self).wf(),
            logged(old(self).spec_logger(), final(self).spec_logger(), start_log(log_threshold(old(self).spec_logger()), prog@)),
            final(self).pending_input() == old(self).pending_input(),
            final(self).written() == old(self).written(),
            match select_entry(prog@) {
                Err(e) => r matches Err(x) && x@ == e && final(self).machine() == old(self).machine(),
                Ok(i) => match check_function(prog@[i]) {
                    Err(e) => r matches Err(x) && x@ == e && final(self).machine() == old(
                        self,
                    ).machine(),
                    Ok(()) => r == Ok::<usize, RuntimeError>(i as usize) && final(self).machine() == (
                    MachineV { block: prog@[i].1, inst: 0, ..old(self).machine() }),
                },
            },
    {
        proof {
            lemma_logged_refl(self.logger);
        }
        let ghost l0 = self.logger;
        let ghost t = log_threshold(l0);
        let ghost p = prog@;
        let i = select_entry_index(&prog.functions)?;
        let func = &prog.functions[i];
        let ghost f = p[i as int];
        assert(func@ == f);
        let ghost sel = vm_line(t, LogLevel::Info, "I_BFVM_SELECT_ENTRY"@, "selected entry function="@ + f.0);
        if self.tracing() {
            let mut d: Vec<char> = Vec::new();
            push_str(&mut d, "selected entry function=");
            push_str(&mut d, func.name.as_str());
            assert(d@ =~= "selected entry function="@ + f.0);
            self.emit_trace(LogLevel::Info, "I_BFVM_SELECT_ENTRY", &d);
        }
        let ghost l1 = self.logger;
        assert(logged(l0, l1, sel));
        let ghost ent: Seq<Seq<char>> = if f.2.len() > 0 {
            vm_line(t, LogLevel::Info, "I_BFVM_ENTER_FUNCTION"@, "function="@ + f.0 + " entry="@ + int_dec(f.1 as int))
        } else {
            Seq::empty()
        };
        proof {
            lemma_logged_refl(l1);
        }
        if func.blocks.len() > 0 && self.tracing() {
            let mut d: Vec<char> = Vec::new();
            push_str(&mut d, "function=");
            push_str(&mut d, func.name.as_str());
            push_str(&mut d, " entry=");
            push_usize(&mut d, func.entry);
            assert(d@ =~= "function="@ + f.0 + " entry="@ + int_dec(f.1 as int));
            self.emit_trace(LogLevel::Info, "I_BFVM_ENTER_FUNCTION", &d);
        }
        proof {
            assert(logged(l1, self.logger, ent));
            lemma_logged_trans(l0, l1, self.logger, sel, ent);
        }
        check_runnable(func)?;
        self.cur_block_id = func.entry;
        self.cur_inst = 0;
        Ok(i)
    }

    /// Runs the function named `entry` of `ir2_prog` from its entry block
    /// until it returns, reading from the queued input (its end reads as end
    /// of input) and appending to the written bytes. The tape and the pointer
    /// carry over from earlier runs. A program with no function named
    /// `entry`, or with two, fails; so does an entry function with no blocks,
    /// a repeated block identifier or no block for its entry; a run that does
    /// not return within `u64::MAX` steps fails with `StepLimitExceeded`.
    #[verifier::rlimit(80)]
    pub fn run(&mut self, ir2_prog: Ir2Program) -> (r: Result<(), RuntimeError>)
        requires
            old(self).wf(),
        ensures
            final(self).wf(),
            logged(
                old(self).spec_logger(),
                final(self).spec_logger(),
                program_log(
                    log_threshold(old(self).spec_logger()),
                    ir2_prog@,
                    old(self).machine(),
                    old(self).pending_input(),
                ),
            ),
            run_reports(
                run_program(ir2_prog@, old(self).machine(), old(self).pending_input(), old(self).written()),
                r,
                final(self).machine(),
                final(self).pending_input(),
                final(self).written(),
            ),
    {
        let ghost l0 = self.logger;
        let ghost t = log_threshold(l0);
        let ghost p = ir2_prog@;
        let ghost total = program_log(t, p, self.machine(), self.pending_input());
        let i = match self.start(&ir2_prog) {
            Err(e) => {
                assert(start_log(t, p) + Seq::<Seq<char>>::empty() =~= start_log(t, p));
                return Err(e);
            },
            Ok(i) => i,
        };
        let func = &ir2_prog.functions[i];
        let ghost f = p[i as int];
        assert(func@ == f);
        let ghost target = run_machine(f, self.machine(), self.pending_input(), self.written(), step_limit());
        let ghost mut acc: Seq<Seq<char>> = start_log(t, p);
        proof {
            lemma_logged_threshold(l0, self.logger, acc);
        }
        let mut fuel: u64 = u64::MAX;
        loop
            invariant
                self.wf(),
                func@ == f,
                run_machine(f, self.machine(), self.pending_input(), self.written(), fuel as nat)
                    == target,
                target == run_program(
                    ir2_prog@,
                    old(self).machine(),
                    old(self).pending_input(),
                    old(self).written(),
                ),
                l0 == old(self).logger,
                t == log_threshold(l0),
                log_threshold(self.logger) == t,
                logged(l0, self.logger, acc),
                acc + run_log(t, f, self.machine(), self.pending_input(), fuel as nat) == total,
                total == program_log(t, ir2_prog@, old(self).machine(), old(self).pending_input()),
            decreases fuel,
        {
            if fuel == 0 {
                assert(acc + Seq::<Seq<char>>::empty() =~= acc);
                return Err(RuntimeError::StepLimitExceeded { steps: u64::MAX });
            }
            let ghost l2 = self.logger;
            let ghost m = self.machine();
            let ghost inp = self.pending_input();
            let ghost sl = step_log(t, f, m);
            let step = self.step(func);
            proof {
                lemma_logged_trans(l0, l2, self.logger, acc, sl);
                lemma_logged_threshold(l2, self.logger, sl);
            }
            match step {
                Err(e) => {
                    assert(acc + (sl + Seq::<Seq<char>>::empty()) =~= acc + sl);
                    return Err(e);
                },
                Ok(VmAction::Continue) => {
                    let ghost rest = run_log(t, f, self.machine(), inp, (fuel - 1) as nat);
                    proof {
                        assert(acc + (sl + rest) =~= (acc + sl) + rest);
                        acc = acc + sl;
                    }
                },
                Ok(VmAction::NeedInput) => {
                    let ghost l3 = self.logger;
                    let ghost m2 = self.machine();
                    let byte = self.next_input();
                    let ghost il = input_log(t, m2, byte);
                    self.complete_input(func, byte);
                    let ghost rest = run_log(t, f, self.machine(), self.pending_input(), (fuel - 1) as nat);
                    proof {
                        lemma_logged_trans(l0, l3, self.logger, acc + sl, il);
                        lemma_logged_threshold(l3, self.logger, il);
                        assert(acc + (sl + (il + rest)) =~= ((acc + sl) + il) + rest);
                        acc = acc + sl + il;
                    }
                },
                Ok(VmAction::Output(b)) => {
                    self.output.push(b);
                    let ghost l3 = self.logger;
                    let ghost ol = output_log(t, self.machine());
                    self.complete_output();
                    let ghost rest = run_log(t, f, self.machine(), inp, (fuel - 1) as nat);
                    proof {
                        lemma_logged_trans(l0, l3, self.logger, acc + sl, ol);
                        lemma_logged_threshold(l3, self.logger, ol);
                        assert(acc + (sl + (ol + rest)) =~= ((acc + sl) + ol) + rest);
                        acc = acc + sl + ol;
                    }
                },
                Ok(VmAction::Finished) => {
                    assert(acc + (sl + Seq::<Seq<char>>::empty()) =~= acc + sl);
                    return Ok(());
                },
            }
            fuel = fuel - 1;
        }
    }
}

/// Parses the BF2 text `code` and runs it on `vm`. Text that does not parse
/// fails with `InvalidProgramText` and leaves `vm` unchanged.
pub fn execute_str_on(code: &str, vm: &mut Status) -> (r: Result<(), RuntimeError>)
    requires
        old(vm).wf(),
    ensures
        final(vm).wf(),
        match bf2_parse(code@) {
            Err(e) => {
                &&& logged(old(vm).spec_logger(), final(vm).spec_logger(), Seq::empty())
                &&& run_reports(
                    RunV::Failed(
                        RuntimeErrorV::InvalidProgramText(e),
                        old(vm).machine(),
                        old(vm).pending_input(),
                        old(vm).written(),
                    ),
                    r,
                    final(vm).machine(),
                    final(vm).pending_input(),
                    final(vm).written(),
                )
            },
            Ok(p) => {
                &&& logged(
                    old(vm).spec_logger(),
                    final(vm).spec_logger(),
                    program_log(log_threshold(old(vm).spec_logger()), p, old(vm).machine(), old(vm).pending_input()),
                )
                &&& run_reports(
                    run_program(p, old(vm).machine(), old(vm).pending_input(), old(vm).written()),
                    r,
                    final(vm).machine(),
                    final(vm).pending_input(),
                    final(vm).written(),
                )
            },
        },
{
    match Ir2Program::from_bf2_str(code) {
        Err(e) => {
            proof {
                lemma_logged_refl(vm.logger);
            }
            Err(RuntimeError::from(e))
        },
        Ok(prog) => vm.run(prog),
    }
}

/// The logger has no effect on a run: two machines that differ at most in
/// their loggers, run on the same program, give the same result, leave the
/// same tape, pointer and position, and read and write the same bytes.
pub proof fn run_ignores_logger(
    p: Seq<FuncV>,
    a: Status,
    b: Status,
    r1: Result<(), RuntimeError>,
    fa: Status,
    r2: Result<(), RuntimeError>,
    fb: Status,
)
    requires
        a.machine() == b.machine(),
        a.pending_input() == b.pending_input(),
        a.written() == b.written(),
        run_reports(
            run_program(p, a.machine(), a.pending_input(), a.written()),
            r1,
            fa.machine(),
            fa.pending_input(),
            fa.written(),
        ),
        run_reports(
            run_program(p, b.machine(), b.pending_input(), b.written()),
            r2,
            fb.machine(),
            fb.pending_input(),
            fb.written(),
        ),
    ensures
        r1 is Ok <==> r2 is Ok,
        r1 matches Err(x) ==> r2 matches Err(y) && x@ == y@,
        fa.machine() == fb.machine(),
        fa.pending_input() == fb.pending_input(),
        fa.written() == fb.written(),
{
}

proof fn lemma_first_repeat_unique(bs: Seq<BlockV>, j1: int, j2: int)
    requires
        first_repeat(bs, j1),
        first_repeat(bs, j2),
    ensures
        j1 == j2,
{
}

/// Running a program first selects and checks its entry function, and leaves
/// the machine and the streams untouched when that fails: no function named
/// `entry` gives `EntryFunctionNotFound` and two give
/// `DuplicateEntryFunction`; for the one entry function `p[i]`, no blocks
/// give `EntryBlockNotFound`, the first block that repeats an identifier
/// gives `DuplicateBlockId`, and a missing entry block gives
/// `EntryBlockNotFound`. Otherwise `p[i]` runs from its entry block on the
/// current tape and pointer, for at most `step_limit()` steps.
pub proof fn run_program_checks(p: Seq<FuncV>, m: MachineV, input: Seq<u8>, output: Seq<u8>, i: int)
    ensures
        (forall|j: int| !is_entry(p, j)) ==> run_program(p, m, input, output) == RunV::Failed(
            RuntimeErrorV::EntryFunctionNotFound { name: ENTRY_FUNCTION_NAME@ },
            m,
            input,
            output,
        ),
        (exists|j: int, k: int| j < k && is_entry(p, j) && is_entry(p, k)) ==> run_program(
            p,
            m,
            input,
            output,
        ) == RunV::Failed(
            RuntimeErrorV::DuplicateEntryFunction { name: ENTRY_FUNCTION_NAME@ },
            m,
            input,
            output,
        ),
        is_entry(p, i) && (forall|j: int| is_entry(p, j) ==> j == i) ==> {
            let f = p[i];
            &&& f.2.len() == 0 ==> run_program(p, m, input, output) == RunV::Failed(
                RuntimeErrorV::EntryBlockNotFound { function: f.0, entry: f.1 },
                m,
                input,
                output,
            )
            &&& forall|j: int|
                f.2.len() > 0 && #[trigger] first_repeat(f.2, j) ==> run_program(
                    p,
                    m,
                    input,
                    output,
                ) == RunV::Failed(
                    RuntimeErrorV::DuplicateBlockId { function: f.0, block_id: f.2[j].0 },
                    m,
                    input,
                    output,
                )
            &&& f.2.len() > 0 && (forall|j: int| !first_repeat(f.2, j)) && find_block(f.2, f.1)
                is None ==> run_program(p, m, input, output) == RunV::Failed(
                RuntimeErrorV::EntryBlockNotFound { function: f.0, entry: f.1 },
                m,
                input,
                output,
            )
            &&& check_function(f) is Ok ==> run_program(p, m, input, output) == run_machine(
                f,
                MachineV { block: f.1, inst: 0, ..m },
                input,
                output,
                step_limit(),
            )
        },
{
    if is_entry(p, i) && (forall|j: int| is_entry(p, j) ==> j == i) {
        assert(!exists|j: int, k: int| j < k && is_entry(p, j) && is_entry(p, k));
        assert(select_entry(p) == Ok::<int, RuntimeErrorV>(i));
        let f = p[i];
        assert forall|j: int| f.2.len() > 0 && #[trigger] first_repeat(f.2, j) implies run_program(
            p,
            m,
            input,
            output,
        ) == RunV::Failed(
            RuntimeErrorV::DuplicateBlockId { function: f.0, block_id: f.2[j].0 },
            m,
            input,
            output,
        ) by {
            let c = choose|c: int| first_repeat(f.2, c);
            lemma_first_repeat_unique(f.2, c, j);
        }
    }
}

/// What an instruction does: a pointer move by `v` goes to `pos + v` when
/// that is on the tape and otherwise fails with `PtrOutOfBounds`, leaving the
/// machine as it was; a cell addition wraps; a read stores the byte, or 0 at
/// the end of input; a write gives the low 8 bits of the cell. The tape,
/// pointer and position change in no other way.
pub proof fn instruction_effects(f: FuncV, m: MachineV, byte: Option<u8>)
    requires
        on_tape(m),
        find_block(f.2, m.block) is Some,
        0 <= m.inst < f.2[find_block(f.2, m.block).unwrap()].1.len(),
    ensures
        ({
            let x = m.tape[m.pos];
            match f.2[find_block(f.2, m.block).unwrap()].1[m.inst] {
                Ir2Inst::AddPtrImm(v) => if 0 <= m.pos + v < BFCAP {
                    machine_step(f, m) == StepV::Continue(MachineV { pos: m.pos + v, inst: m.inst + 1, ..m })
                } else {
                    machine_step(f, m) is Fail && machine_step(f, m)->Fail_0 is PtrOutOfBounds
                },
                Ir2Inst::AddCellImm(v) => machine_step(f, m) == StepV::Continue(
                    MachineV { tape: m.tape.update(m.pos, x.wrapping_add(v)), inst: m.inst + 1, ..m },
                ),
                Ir2Inst::ReadByteToCell => machine_step(f, m) == StepV::NeedInput(m) && machine_input(
                    m,
                    byte,
                ) == (MachineV {
                    tape: m.tape.update(
                        m.pos,
                        match byte {
                            Some(b) => b as i64,
                            None => 0,
                        },
                    ),
                    inst: m.inst + 1,
                    ..m
                }),
                Ir2Inst::WriteCellLow8 => machine_step(f, m) matches StepV::Output(m2, b) && m2 == (
                MachineV { inst: m.inst + 1, ..m }) && b as int == x as int % 256,
            }
        }),
{
    let x = m.tape[m.pos];
    assert((x as u8) as int == (x as int) % 256) by (bit_vector);
}

/// A block is found by its identifier: the first block of `bs` with
/// identifier `id`, and none when no block has it, whatever the number of
/// blocks.
pub proof fn find_block_by_identifier(bs: Seq<BlockV>, id: usize)
    ensures
        find_block(bs, id) is None <==> forall|k: int| 0 <= k < bs.len() ==> bs[k].0 != id,
        find_block(bs, id) matches Some(k) ==> 0 <= k < bs.len() && bs[k].0 == id && forall|j: int|
            0 <= j < k ==> bs[j].0 != id,
{
    if exists|k: int| 0 <= k < bs.len() && bs[k].0 == id {
        let k = choose|k: int| 0 <= k < bs.len() && bs[k].0 == id;
        lemma_first_with_id_exists(bs, id, k);
    }
}

/// What ends a block once its instructions have run: a jump continues at the
/// start of its target block; a branch continues at the start of its first
/// target when the cell under the pointer is 0 and of its second target
/// otherwise, whichever identifiers they are; a return finishes; no
/// terminator fails with `MissingTerminator`. The tape and pointer are kept.
/// A machine at a block that does not exist fails with `UnknownBlockId`.
pub proof fn terminator_effects(f: FuncV, m: MachineV)
    ensures
        find_block(f.2, m.block) is None ==> machine_step(f, m) == StepV::Fail(
            RuntimeErrorV::UnknownBlockId { function: f.0, block_id: m.block },
        ),
        find_block(f.2, m.block) matches Some(k) ==> (m.inst == f.2[k].1.len() ==> {
            &&& f.2[k].2 is None ==> machine_step(f, m) == StepV::Fail(
                RuntimeErrorV::MissingTerminator { function: f.0, block_id: m.block },
            )
            &&& f.2[k].2 == Some(Ir2Terminator::Return) ==> machine_step(f, m) == StepV::Finished(m)
            &&& forall|t: usize|
                f.2[k].2 == Some(Ir2Terminator::Jump(t)) ==> machine_step(f, m) == StepV::Continue(
                    MachineV { tape: m.tape, pos: m.pos, block: t, inst: 0 },
                )
            &&& forall|z: usize, nz: usize|
                f.2[k].2 == Some(Ir2Terminator::BranchCellZero(z, nz)) ==> {
                    &&& m.tape[m.pos] == 0 ==> machine_step(f, m) == StepV::Continue(
                        MachineV { tape: m.tape, pos: m.pos, block: z, inst: 0 },
                    )
                    &&& m.tape[m.pos] != 0 ==> machine_step(f, m) == StepV::Continue(
                        MachineV { tape: m.tape, pos: m.pos, block: nz, inst: 0 },
                    )
                }
        }),
{
}

} // verus!
