//! IR2: functions made of basic blocks with explicit terminators, lowered from
//! IR1, with its textual form BF2.
use vstd::prelude::*;

use crate::bferror::{ir2_error_message, Ir2Error, Ir2ErrorV};
use crate::ir1::{block_view, Ir1Block, Ir1Inst, Ir1InstV, Ir1Program, inst_size, block_size};
use crate::logging::{emitted_lines, LogLevel, Logger};
use crate::text::{
    chars_eq_str, chars_of, int_dec, meaningful_lines, meaningful_lines_of, parse_i64,
    parse_i64_spec, parse_usize, parse_usize_spec, push_chars, push_i64, push_str, push_usize,
    split_words, starts_with_str, string_from_chars, subvec, vecs_view, words, lines_view, Line,
};

verus! {

/// An IR2 instruction.
#[derive(Clone, Copy, Debug, PartialEq, Eq, Structural)]
pub enum Ir2Inst {
    AddPtrImm(i64),
    AddCellImm(i64),
    ReadByteToCell,
    WriteCellLow8,
}

/// The identifier of a block within its function.
pub type BlockId = usize;

/// How a block ends: a jump, a branch on whether the current cell is zero
/// (to the first target if it is, else to the second), or a return.
#[derive(Clone, Copy, Debug, PartialEq, Eq, Structural)]
pub enum Ir2Terminator {
    Jump(BlockId),
    BranchCellZero(BlockId, BlockId),
    Return,
}

/// A basic block: straight-line instructions and a terminator.
#[derive(Clone, Debug, PartialEq, Eq)]
pub struct Ir2Block {
    pub id: BlockId,
    pub insts: Vec<Ir2Inst>,
    pub term: Option<Ir2Terminator>,
}

/// A function: its name, its entry block and its blocks.
#[derive(Clone, Debug, PartialEq, Eq)]
pub struct Ir2Function {
    pub name: String,
    pub entry: BlockId,
    pub blocks: Vec<Ir2Block>,
}

/// A program in IR2: its functions.
#[derive(Clone, Debug, PartialEq, Eq)]
pub struct Ir2Program {
    pub functions: Vec<Ir2Function>,
}

/// Abstract value of a block: identifier, instructions and terminator.
pub type BlockV = (usize, Seq<Ir2Inst>, Option<Ir2Terminator>);

/// Abstract value of a function: name, entry and blocks.
pub type FuncV = (Seq<char>, usize, Seq<BlockV>);

impl View for Ir2Block {
    type V = BlockV;

    open spec fn view(&self) -> BlockV {
        (self.id, self.insts@, self.term)
    }
}

pub open spec fn blocks_view(bs: Seq<Ir2Block>) -> Seq<BlockV> {
    bs.map_values(|b: Ir2Block| b@)
}

impl View for Ir2Function {
    type V = FuncV;

    open spec fn view(&self) -> FuncV {
        (self.name@, self.entry, blocks_view(self.blocks@))
    }
}

pub open spec fn funcs_view(fs: Seq<Ir2Function>) -> Seq<FuncV> {
    fs.map_values(|f: Ir2Function| f@)
}

impl View for Ir2Program {
    type V = Seq<FuncV>;

    open spec fn view(&self) -> Seq<FuncV> {
        funcs_view(self.functions@)
    }
}

// ---------------------------------------------------------------------------
// Building the control-flow graph
// ---------------------------------------------------------------------------

/// `bs` with `i` appended to the instructions of block `cur`.
pub open spec fn push_inst_spec(bs: Seq<BlockV>, cur: int, i: Ir2Inst) -> Seq<BlockV> {
    bs.update(cur, (bs[cur].0, bs[cur].1.push(i), bs[cur].2))
}

/// `bs` with the terminator of block `cur` set to `t`.
pub open spec fn set_term_spec(bs: Seq<BlockV>, cur: int, t: Ir2Terminator) -> Seq<BlockV> {
    bs.update(cur, (bs[cur].0, bs[cur].1, Some(t)))
}

/// A new empty block with identifier `id`.
pub open spec fn fresh_block(id: int) -> BlockV {
    (id as usize, Seq::empty(), None)
}

/// The blocks and current block after emitting one IR1 instruction. A loop
/// creates a head, a body and an exit block: the current block jumps to the
/// head, the head branches to the exit when the cell is zero and to the body
/// otherwise, the body ends with a jump back to the head, and emission goes on
/// in the exit block.
pub open spec fn emit_inst_spec(st: (Seq<BlockV>, int), i: Ir1InstV) -> (Seq<BlockV>, int)
    decreases i,
{
    let (bs, cur) = st;
    match i {
        Ir1InstV::PtrMove(v) => (push_inst_spec(bs, cur, Ir2Inst::AddPtrImm(v)), cur),
        Ir1InstV::CellAdd(v) => (push_inst_spec(bs, cur, Ir2Inst::AddCellImm(v)), cur),
        Ir1InstV::Input => (push_inst_spec(bs, cur, Ir2Inst::ReadByteToCell), cur),
        Ir1InstV::Output => (push_inst_spec(bs, cur, Ir2Inst::WriteCellLow8), cur),
        Ir1InstV::Loop(inner) => {
            let n = bs.len() as int;
            let bs0 = bs + seq![fresh_block(n), fresh_block(n + 1), fresh_block(n + 2)];
            let bs1 = set_term_spec(bs0, cur, Ir2Terminator::Jump(n as usize));
            let bs2 = set_term_spec(
                bs1,
                n,
                Ir2Terminator::BranchCellZero((n + 2) as usize, (n + 1) as usize),
            );
            let (bs3, c3) = emit_block_spec((bs2, n + 1), inner);
            (set_term_spec(bs3, c3, Ir2Terminator::Jump(n as usize)), n + 2)
        },
    }
}

/// The blocks and current block after emitting an IR1 block, in order.
pub open spec fn emit_block_spec(st: (Seq<BlockV>, int), b: Seq<Ir1InstV>) -> (Seq<BlockV>, int)
    decreases b,
{
    if b.len() == 0 {
        st
    } else {
        emit_block_spec(emit_inst_spec(st, b[0]), b.subrange(1, b.len() as int))
    }
}

/// The IR2 function `name` of an IR1 block: entry block 0, the block's
/// emission, and a return at the end.
pub open spec fn lower_function_spec(name: Seq<char>, root: Seq<Ir1InstV>) -> FuncV {
    let (bs, c) = emit_block_spec((seq![fresh_block(0)], 0), root);
    (name, 0, set_term_spec(bs, c, Ir2Terminator::Return))
}

/// The number of loops in an instruction, at any depth.
pub open spec fn inst_loops(i: Ir1InstV) -> nat
    decreases i,
{
    match i {
        Ir1InstV::Loop(b) => 1 + block_loops(b),
        _ => 0,
    }
}

/// The number of loops in a block, at any depth.
pub open spec fn block_loops(b: Seq<Ir1InstV>) -> nat
    decreases b,
{
    if b.len() == 0 {
        0
    } else {
        inst_loops(b[0]) + block_loops(b.subrange(1, b.len() as int))
    }
}

struct Builder {
    next_block_id: BlockId,
    blocks: Vec<Ir2Block>,
    current_block: BlockId,
}

/// The builder's invariant: identifiers are indices, the next identifier is
/// the number of blocks, and the current block has no terminator yet.
spec fn builder_wf(b: Builder) -> bool {
    &&& b.next_block_id == b.blocks@.len()
    &&& b.current_block < b.blocks@.len()
    &&& forall|i: int| 0 <= i < b.blocks@.len() ==> #[trigger] b.blocks@[i].id == i
    &&& b.blocks@[b.current_block as int].term is None
}

impl Builder {
    fn new() -> (r: Builder)
        ensures
            r.blocks@.len() == 0,
            r.next_block_id == 0,
            r.current_block == 0,
    {
        Builder { next_block_id: 0, blocks: Vec::new(), current_block: 0 }
    }

    fn new_block(&mut self) -> (id: BlockId)
        requires
            old(self).next_block_id == old(self).blocks@.len(),
            old(self).blocks@.len() < usize::MAX,
        ensures
            id == old(self).blocks@.len(),
            final(self).next_block_id == final(self).blocks@.len(),
            final(self).current_block == old(self).current_block,
            blocks_view(final(self).blocks@) == blocks_view(old(self).blocks@).push(
                fresh_block(id as int),
            ),
            final(self).blocks@ == old(self).blocks@.push(final(self).blocks@.last()),
    {
        let id = self.next_block_id;
        self.next_block_id = self.next_block_id + 1;
        self.blocks.push(Ir2Block { id, insts: Vec::new(), term: None });
        assert(blocks_view(self.blocks@) =~= blocks_view(old(self).blocks@).push(
            fresh_block(id as int),
        ));
        id
    }

    fn set_current(&mut self, id: BlockId) -> (r: Result<(), Ir2Error>)
        ensures
            r is Ok <==> id < old(self).blocks@.len(),
            r is Err ==> r == Err::<(), Ir2Error>(Ir2Error::InvalidCurrentBlock { id }),
            final(self).blocks@ == old(self).blocks@,
            final(self).next_block_id == old(self).next_block_id,
            final(self).current_block == if r is Ok {
                id
            } else {
                old(self).current_block
            },
    {
        if id >= self.blocks.len() {
            return Err(Ir2Error::InvalidCurrentBlock { id });
        }
        self.current_block = id;
        Ok(())
    }

    fn push_inst(&mut self, inst: Ir2Inst) -> (r: Result<(), Ir2Error>)
        ensures
            r is Ok <==> old(self).current_block < old(self).blocks@.len(),
            r is Ok ==> blocks_view(final(self).blocks@) == push_inst_spec(
                blocks_view(old(self).blocks@),
                old(self).current_block as int,
                inst,
            ),
            r is Ok ==> forall|i: int|
                0 <= i < old(self).blocks@.len() ==> #[trigger] final(self).blocks@[i].id
                    == old(self).blocks@[i].id,
            r is Ok ==> forall|i: int|
                0 <= i < old(self).blocks@.len() ==> #[trigger] final(self).blocks@[i].term
                    == old(self).blocks@[i].term,
            r is Ok ==> forall|i: int|
                0 <= i < old(self).blocks@.len() && i != old(self).current_block
                    ==> #[trigger] final(self).blocks@[i] == old(self).blocks@[i],
            r is Err ==> final(self).blocks@ == old(self).blocks@,
            final(self).blocks@.len() == old(self).blocks@.len(),
            final(self).next_block_id == old(self).next_block_id,
            final(self).current_block == old(self).current_block,
    {
        let cur = self.current_block;
        let block = self.block_mut(cur)?;
        block.insts.push(inst);
        assert(blocks_view(self.blocks@) =~= push_inst_spec(
            blocks_view(old(self).blocks@),
            old(self).current_block as int,
            inst,
        ));
        Ok(())
    }

    fn set_term(&mut self, term: Ir2Terminator) -> (r: Result<(), Ir2Error>)
        ensures
            r is Ok <==> old(self).current_block < old(self).blocks@.len()
                && old(self).blocks@[old(self).current_block as int].term is None,
            r is Ok ==> blocks_view(final(self).blocks@) == set_term_spec(
                blocks_view(old(self).blocks@),
                old(self).current_block as int,
                term,
            ),
            r is Ok ==> forall|i: int|
                0 <= i < old(self).blocks@.len() ==> #[trigger] final(self).blocks@[i].id
                    == old(self).blocks@[i].id,
            r is Ok ==> forall|i: int|
                0 <= i < old(self).blocks@.len() && i != old(self).current_block
                    ==> #[trigger] final(self).blocks@[i] == old(self).blocks@[i],
            final(self).blocks@.len() == old(self).blocks@.len(),
            final(self).next_block_id == old(self).next_block_id,
            final(self).current_block == old(self).current_block,
    {
        let cur = self.current_block;
        let block = self.block_mut(cur)?;
        if block.term.is_some() {
            return Err(Ir2Error::TerminatorAlreadySet { block_id: cur });
        }
        block.term = Some(term);
        assert(blocks_view(self.blocks@) =~= set_term_spec(
            blocks_view(old(self).blocks@),
            old(self).current_block as int,
            term,
        ));
        Ok(())
    }

    fn block_mut(&mut self, id: BlockId) -> (r: Result<&mut Ir2Block, Ir2Error>)
        ensures
            r is Ok <==> id < old(self).blocks@.len(),
            r is Err ==> r == Err::<&mut Ir2Block, Ir2Error>(Ir2Error::InvalidCurrentBlock { id }),
            r is Err ==> *final(self) == *old(self),
            r matches Ok(b) ==> *b == old(self).blocks@[id as int]
                && final(self).blocks@ == old(self).blocks@.update(id as int, *final(b))
                && final(self).next_block_id == old(self).next_block_id
                && final(self).current_block == old(self).current_block,
    {
        if id >= self.blocks.len() {
            return Err(Ir2Error::InvalidCurrentBlock { id });
        }
        Ok(&mut self.blocks[id])
    }

    fn current_has_term(&self) -> (r: Result<bool, Ir2Error>)
        ensures
            r is Ok <==> self.current_block < self.blocks@.len(),
            r matches Ok(b) ==> b == self.blocks@[self.current_block as int].term is Some,
            r is Err ==> r == Err::<bool, Ir2Error>(
                Ir2Error::InvalidCurrentBlock { id: self.current_block },
            ),
    {
        if self.current_block >= self.blocks.len() {
            return Err(Ir2Error::InvalidCurrentBlock { id: self.current_block });
        }
        Ok(self.blocks[self.current_block].term.is_some())
    }
}


proof fn lemma_emit_block_step(st: (Seq<BlockV>, int), b: Seq<Ir1InstV>, i: int)
    requires
        0 <= i < b.len(),
    ensures
        emit_block_spec(st, b.skip(i)) == emit_block_spec(emit_inst_spec(st, b[i]), b.skip(i + 1)),
        block_loops(b.skip(i)) == inst_loops(b[i]) + block_loops(b.skip(i + 1)),
{
    assert(b.skip(i).subrange(1, b.skip(i).len() as int) =~= b.skip(i + 1));
    assert(b.skip(i)[0] == b[i]);
}

proof fn lemma_block_view_index(b: Seq<Ir1Inst>, i: int)
    requires
        0 <= i < b.len(),
    ensures
        block_view(b)[i] == crate::ir1::inst_view(b[i]),
        block_view(b).len() == b.len(),
{
}

/// The builder after emitting `ir1_block` into its current block.
fn emit_ir1_block(builder: &mut Builder, ir1_block: &Ir1Block) -> (r: Result<(), Ir2Error>)
    requires
        builder_wf(*old(builder)),
        old(builder).blocks@.len() + 3 * block_loops(block_view(ir1_block@)) <= usize::MAX,
    ensures
        r is Ok,
        builder_wf(*final(builder)),
        (blocks_view(final(builder).blocks@), final(builder).current_block as int) == emit_block_spec(
            (blocks_view(old(builder).blocks@), old(builder).current_block as int),
            block_view(ir1_block@),
        ),
        final(builder).blocks@.len() == old(builder).blocks@.len() + 3 * block_loops(
            block_view(ir1_block@),
        ),
        forall|i: int|
            0 <= i < old(builder).blocks@.len() && i != old(builder).current_block
                ==> #[trigger] final(builder).blocks@[i] == old(builder).blocks@[i],
        final(builder).current_block == old(builder).current_block
            || final(builder).current_block >= old(builder).blocks@.len(),
    decreases block_size(ir1_block@), 1nat,
{
    let ghost bv = block_view(ir1_block@);
    let ghost st0 = (blocks_view(builder.blocks@), builder.current_block as int);
    let ghost old_blocks = builder.blocks@;
    let ghost old_cur = builder.current_block;
    let n = ir1_block.len();
    let mut i: usize = 0;
    assert(bv.skip(0) =~= bv);
    while i < n
        invariant
            i <= n,
            n == ir1_block@.len(),
            bv == block_view(ir1_block@),
            bv.len() == n,
            builder_wf(*builder),
            emit_block_spec(st0, bv) == emit_block_spec(
                (blocks_view(builder.blocks@), builder.current_block as int),
                bv.skip(i as int),
            ),
            builder.blocks@.len() + 3 * block_loops(bv.skip(i as int)) == old_blocks.len() + 3
                * block_loops(bv),
            old_blocks.len() + 3 * block_loops(bv) <= usize::MAX,
            old_blocks.len() <= builder.blocks@.len(),
            forall|k: int|
                0 <= k < old_blocks.len() && k != old_cur ==> #[trigger] builder.blocks@[k]
                    == old_blocks[k],
            builder.current_block == old_cur || builder.current_block >= old_blocks.len(),
        decreases n - i,
    {
        proof {
            lemma_emit_block_step(
                (blocks_view(builder.blocks@), builder.current_block as int),
                bv,
                i as int,
            );
            lemma_block_view_index(ir1_block@, i as int);
            crate::ir1::lemma_block_size_elem(ir1_block@, i as int);
        }
        let ghost pre = *builder;
        match &ir1_block[i] {
            Ir1Inst::PtrMove(v) => {
                let r = builder.push_inst(Ir2Inst::AddPtrImm(*v));
            },
            Ir1Inst::CellAdd(v) => {
                let r = builder.push_inst(Ir2Inst::AddCellImm(*v));
            },
            Ir1Inst::Input => {
                let r = builder.push_inst(Ir2Inst::ReadByteToCell);
            },
            Ir1Inst::Output => {
                let r = builder.push_inst(Ir2Inst::WriteCellLow8);
            },
            Ir1Inst::Loop(inner) => {
                let r = emit_loop(builder, inner);
            },
        }
        i = i + 1;
    }
    assert(bv.skip(n as int) =~= Seq::<Ir1InstV>::empty());
    Ok(())
}

/// The builder after emitting a loop with body `inner` (see `emit_inst_spec`).
fn emit_loop(builder: &mut Builder, inner: &Ir1Block) -> (r: Result<(), Ir2Error>)
    requires
        builder_wf(*old(builder)),
        old(builder).blocks@.len() + 3 * (1 + block_loops(block_view(inner@))) <= usize::MAX,
    ensures
        r is Ok,
        builder_wf(*final(builder)),
        (blocks_view(final(builder).blocks@), final(builder).current_block as int)
            == emit_inst_spec(
            (blocks_view(old(builder).blocks@), old(builder).current_block as int),
            Ir1InstV::Loop(block_view(inner@)),
        ),
        final(builder).blocks@.len() == old(builder).blocks@.len() + 3 * (1 + block_loops(
            block_view(inner@),
        )),
        forall|i: int|
            0 <= i < old(builder).blocks@.len() && i != old(builder).current_block
                ==> #[trigger] final(builder).blocks@[i] == old(builder).blocks@[i],
        final(builder).current_block >= old(builder).blocks@.len(),
    decreases 1 + block_size(inner@), 0nat,
{
    let ghost bs = blocks_view(builder.blocks@);
    let ghost cur = builder.current_block as int;
    let ghost old_blocks = builder.blocks@;
    let head = builder.new_block();
    let body = builder.new_block();
    let exit = builder.new_block();
    let ghost n = head as int;
    assert(blocks_view(builder.blocks@) =~= bs + seq![fresh_block(n), fresh_block(n + 1), fresh_block(n + 2)]);
    assert(forall|k: int| 0 <= k < builder.blocks@.len() ==> #[trigger] builder.blocks@[k].id == k) by {
        assert forall|k: int| 0 <= k < builder.blocks@.len() implies #[trigger] builder.blocks@[k].id == k by {
            if k >= old_blocks.len() {
                assert(blocks_view(builder.blocks@)[k] == builder.blocks@[k]@);
            } else {
                assert(builder.blocks@[k] == old_blocks[k]);
            }
        }
    }
    assert(builder.blocks@[cur] == old_blocks[cur]);
    let has = builder.current_has_term();
    let _ = builder.set_term(Ir2Terminator::Jump(head));
    let _ = builder.set_current(head);
    assert(builder.blocks@[n]@ == fresh_block(n)) by {
        assert(blocks_view(builder.blocks@)[n] == builder.blocks@[n]@);
    }
    let _ = builder.set_term(Ir2Terminator::BranchCellZero(exit, body));
    let _ = builder.set_current(body);
    assert(builder.blocks@[n + 1]@ == fresh_block(n + 1)) by {
        assert(blocks_view(builder.blocks@)[n + 1] == builder.blocks@[n + 1]@);
    }
    let ghost mid = builder.blocks@;
    let _ = emit_ir1_block(builder, inner);
    let ghost c3 = builder.current_block;
    assert(builder.blocks@[n + 2] == mid[n + 2]);
    assert(mid[n + 2]@ == fresh_block(n + 2)) by {
        assert(blocks_view(mid)[n + 2] == mid[n + 2]@);
    }
    let _ = builder.set_term(Ir2Terminator::Jump(head));
    let _ = builder.set_current(exit);
    assert(builder.blocks@[n + 2] == mid[n + 2]);
    Ok(())
}

/// The IR2 function `name` of the IR1 block `root_block`.
fn lower_ir1_function(name: &str, root_block: &Ir1Block) -> (r: Result<Ir2Function, Ir2Error>)
    requires
        1 + 3 * block_loops(block_view(root_block@)) <= usize::MAX,
    ensures
        r matches Ok(f) && f@ == lower_function_spec(name@, block_view(root_block@)),
{
    let mut builder = Builder::new();
    let entry = builder.new_block();
    let _ = builder.set_current(entry);
    assert(blocks_view(builder.blocks@) =~= seq![fresh_block(0)]);
    assert(builder.blocks@[0]@ == fresh_block(0)) by {
        assert(blocks_view(builder.blocks@)[0] == builder.blocks@[0]@);
    }
    let _ = emit_ir1_block(&mut builder, root_block);
    let has = builder.current_has_term();
    let _ = builder.set_term(Ir2Terminator::Return);
    let chars = chars_of(name);
    Ok(Ir2Function { name: string_from_chars(&chars), entry, blocks: builder.blocks })
}

/// The lines that lowering with a logger of threshold `t` queues: a start
/// record, then a summary of the result or the error.
pub open spec fn ir2_lower_log(t: LogLevel, r: Result<Ir2Program, Ir2Error>) -> Seq<Seq<char>> {
    emitted_lines(t, LogLevel::Info, "IR2"@, None, "I_IR2_LOWER"@, "lowering IR1 to IR2"@) + match r {
        Ok(p) => emitted_lines(
            t,
            LogLevel::Debug,
            "IR2"@,
            None,
            "D_IR2_LOWER_DONE"@,
            "functions="@ + int_dec(p.functions@.len() as int),
        ),
        Err(e) => emitted_lines(t, LogLevel::Error, "IR2"@, None, "E_IR2_LOWER"@, ir2_error_message(e@)),
    }
}

impl Ir2Program {
    /// The IR2 program of `ir1_prog`: one function, `entry`.
    pub fn lower(ir1_prog: &Ir1Program) -> (r: Result<Ir2Program, Ir2Error>)
        requires
            1 + 3 * block_loops(ir1_prog@) <= usize::MAX,
        ensures
            r matches Ok(p) && p@ == seq![lower_function_spec("entry"@, ir1_prog@)],
    {
        let func = lower_ir1_function("entry", &ir1_prog.root)?;
        let mut functions: Vec<Ir2Function> = Vec::new();
        functions.push(func);
        let p = Ir2Program { functions };
        assert(p@ =~= seq![lower_function_spec("entry"@, ir1_prog@)]);
        Ok(p)
    }

    /// As [`Ir2Program::lower`]; a start record and a summary are queued on
    /// `logger`.
    pub fn lower_with_logger(ir1_prog: &Ir1Program, logger: Option<&mut Logger>) -> (r: Result<
        Ir2Program,
        Ir2Error,
    >)
        requires
            1 + 3 * block_loops(ir1_prog@) <= usize::MAX,
        ensures
            r matches Ok(p) && p@ == seq![lower_function_spec("entry"@, ir1_prog@)],
            logger matches Some(l) ==> final(l).spec_threshold() == l.spec_threshold()
                && final(l).pending() == l.pending() + ir2_lower_log(l.spec_threshold(), r),
    {
        let r = Ir2Program::lower(ir1_prog);
        if let Some(l) = logger {
            let ghost p0 = l.pending();
            l.emit_raw(LogLevel::Info, "IR2", "I_IR2_LOWER", "lowering IR1 to IR2");
            let ghost p1 = l.pending();
            match &r {
                Ok(p) => {
                    let mut m: Vec<char> = Vec::new();
                    push_str(&mut m, "functions=");
                    push_usize(&mut m, p.functions.len());
                    let ms = string_from_chars(&m);
                    l.emit_raw(LogLevel::Debug, "IR2", "D_IR2_LOWER_DONE", ms.as_str());
                },
                Err(e) => {
                    let ms = e.message();
                    l.emit_raw(LogLevel::Error, "IR2", "E_IR2_LOWER", ms.as_str());
                },
            }
            assert(l.pending() =~= p0 + ir2_lower_log(l.spec_threshold(), r));
        }
        r
    }
}

// ---------------------------------------------------------------------------
// The BF2 text format
// ---------------------------------------------------------------------------

/// The BF2 line of an instruction.
pub open spec fn inst2_text(i: Ir2Inst) -> Seq<char> {
    match i {
        Ir2Inst::AddPtrImm(v) => "  PTR "@ + int_dec(v as int) + "\n"@,
        Ir2Inst::AddCellImm(v) => "  CELL "@ + int_dec(v as int) + "\n"@,
        Ir2Inst::ReadByteToCell => "  IN\n"@,
        Ir2Inst::WriteCellLow8 => "  OUT\n"@,
    }
}

/// The BF2 line of a terminator; nothing for a block without one.
pub open spec fn term_text(t: Option<Ir2Terminator>) -> Seq<char> {
    match t {
        None => Seq::empty(),
        Some(Ir2Terminator::Jump(target)) => "  TERM JUMP "@ + int_dec(target as int) + "\n"@,
        Some(Ir2Terminator::BranchCellZero(zero, nonzero)) => "  TERM BRANCH_ZERO "@ + int_dec(
            zero as int,
        ) + " "@ + int_dec(nonzero as int) + "\n"@,
        Some(Ir2Terminator::Return) => "  TERM RETURN\n"@,
    }
}

pub open spec fn insts_text(is: Seq<Ir2Inst>) -> Seq<char>
    decreases is.len(),
{
    if is.len() == 0 {
        Seq::empty()
    } else {
        insts_text(is.drop_last()) + inst2_text(is.last())
    }
}

/// The BF2 lines of a block: its header, its instructions, its terminator.
pub open spec fn block2_text(b: BlockV) -> Seq<char> {
    "BLOCK "@ + int_dec(b.0 as int) + "\n"@ + insts_text(b.1) + term_text(b.2)
}

pub open spec fn blocks2_text(bs: Seq<BlockV>) -> Seq<char>
    decreases bs.len(),
{
    if bs.len() == 0 {
        Seq::empty()
    } else {
        blocks2_text(bs.drop_last()) + block2_text(bs.last())
    }
}

/// The BF2 lines of a function: its header, its blocks, `END_FUNC`.
pub open spec fn func_text(f: FuncV) -> Seq<char> {
    "FUNC "@ + f.0 + " ENTRY "@ + int_dec(f.1 as int) + "\n"@ + blocks2_text(f.2) + "END_FUNC\n"@
}

pub open spec fn funcs_text(fs: Seq<FuncV>) -> Seq<char>
    decreases fs.len(),
{
    if fs.len() == 0 {
        Seq::empty()
    } else {
        funcs_text(fs.drop_last()) + func_text(fs.last())
    }
}

/// The BF2 text of a program: the header line `BF2`, then its functions.
pub open spec fn bf2_text(p: Seq<FuncV>) -> Seq<char> {
    "BF2\n"@ + funcs_text(p)
}

/// The state of reading BF2 lines: between functions, inside a function
/// between blocks, or inside a block.
pub enum Bf2State {
    Top { funcs: Seq<FuncV> },
    InFunc { funcs: Seq<FuncV>, name: Seq<char>, entry: usize, blocks: Seq<BlockV> },
    InBlock {
        funcs: Seq<FuncV>,
        name: Seq<char>,
        entry: usize,
        blocks: Seq<BlockV>,
        id: usize,
        insts: Seq<Ir2Inst>,
        term: Option<Ir2Terminator>,
    },
}

/// The name and entry block of a `FUNC <name> ENTRY <entry>` line.
pub open spec fn parse_func_header_spec(no: int, text: Seq<char>) -> Result<
    (Seq<char>, usize),
    Ir2ErrorV,
> {
    let ws = words(text);
    if ws.len() != 4 || ws[0] != "FUNC"@ || ws[2] != "ENTRY"@ {
        Err(Ir2ErrorV::ParseInvalidFunctionHeader { line: no as usize, content: text })
    } else {
        match parse_usize_spec(ws[3]) {
            Some(e) => Ok((ws[1], e)),
            None => Err(Ir2ErrorV::ParseInvalidOperand { line: no as usize, content: text }),
        }
    }
}

/// The identifier of a `BLOCK <id>` line.
pub open spec fn parse_block_header_spec(no: int, text: Seq<char>) -> Result<usize, Ir2ErrorV> {
    let ws = words(text);
    if ws.len() != 2 || ws[0] != "BLOCK"@ {
        Err(Ir2ErrorV::ParseInvalidBlockHeader { line: no as usize, content: text })
    } else {
        match parse_usize_spec(ws[1]) {
            Some(id) => Ok(id),
            None => Err(Ir2ErrorV::ParseInvalidOperand { line: no as usize, content: text }),
        }
    }
}

/// The instruction of a BF2 instruction line.
pub open spec fn parse_inst2_spec(no: int, text: Seq<char>) -> Result<Ir2Inst, Ir2ErrorV> {
    let ws = words(text);
    let bad_inst = Ir2ErrorV::ParseInvalidInstruction { line: no as usize, content: text };
    let bad_operand = Ir2ErrorV::ParseInvalidOperand { line: no as usize, content: text };
    if ws.len() == 0 {
        Err(bad_inst)
    } else if ws[0] == "PTR"@ || ws[0] == "CELL"@ {
        if ws.len() != 2 {
            Err(bad_operand)
        } else {
            match parse_i64_spec(ws[1]) {
                Some(v) => if ws[0] == "PTR"@ {
                    Ok(Ir2Inst::AddPtrImm(v))
                } else {
                    Ok(Ir2Inst::AddCellImm(v))
                },
                None => Err(bad_operand),
            }
        }
    } else if ws[0] == "IN"@ || ws[0] == "OUT"@ {
        if ws.len() != 1 {
            Err(bad_operand)
        } else if ws[0] == "IN"@ {
            Ok(Ir2Inst::ReadByteToCell)
        } else {
            Ok(Ir2Inst::WriteCellLow8)
        }
    } else {
        Err(bad_inst)
    }
}

/// The terminator of what follows `TERM ` on a terminator line.
pub open spec fn parse_term_spec(no: int, rest: Seq<char>) -> Result<Ir2Terminator, Ir2ErrorV> {
    let ws = words(rest);
    let content = "TERM "@ + rest;
    let bad_inst = Ir2ErrorV::ParseInvalidInstruction { line: no as usize, content };
    let bad_operand = Ir2ErrorV::ParseInvalidOperand { line: no as usize, content };
    if ws.len() == 0 {
        Err(Ir2ErrorV::ParseInvalidInstruction { line: no as usize, content: rest })
    } else if ws[0] == "RETURN"@ {
        if ws.len() != 1 {
            Err(bad_operand)
        } else {
            Ok(Ir2Terminator::Return)
        }
    } else if ws[0] == "JUMP"@ {
        if ws.len() != 2 {
            Err(bad_operand)
        } else {
            match parse_usize_spec(ws[1]) {
                Some(t) => Ok(Ir2Terminator::Jump(t)),
                None => Err(bad_operand),
            }
        }
    } else if ws[0] == "BRANCH_ZERO"@ {
        if ws.len() != 3 {
            Err(bad_operand)
        } else {
            match (parse_usize_spec(ws[1]), parse_usize_spec(ws[2])) {
                (Some(z), Some(nz)) => Ok(Ir2Terminator::BranchCellZero(z, nz)),
                _ => Err(bad_operand),
            }
        }
    } else {
        Err(bad_inst)
    }
}

/// Whether `text` begins with `p`.
pub open spec fn has_prefix(text: Seq<char>, p: Seq<char>) -> bool {
    p.len() <= text.len() && text.take(p.len() as int) == p
}

/// Whether some block of `blocks` has identifier `id`.
pub open spec fn has_block(blocks: Seq<BlockV>, id: usize) -> bool {
    exists|i: int| 0 <= i < blocks.len() && (#[trigger] blocks[i]).0 == id
}

/// A line read inside a function between blocks: `END_FUNC` ends the function
/// (whose entry block must exist), anything else must open a block.
pub open spec fn func_step(
    funcs: Seq<FuncV>,
    name: Seq<char>,
    entry: usize,
    blocks: Seq<BlockV>,
    line: (int, Seq<char>),
) -> Result<Bf2State, Ir2ErrorV> {
    let (no, text) = line;
    if text == "END_FUNC"@ {
        if has_block(blocks, entry) {
            Ok(Bf2State::Top { funcs: funcs.push((name, entry, blocks)) })
        } else {
            Err(Ir2ErrorV::EntryBlockNotFound { function: name, entry })
        }
    } else {
        match parse_block_header_spec(no, text) {
            Ok(id) => Ok(
                Bf2State::InBlock { funcs, name, entry, blocks, id, insts: Seq::empty(), term: None },
            ),
            Err(e) => Err(e),
        }
    }
}

/// The reading state after one more BF2 line.
pub open spec fn bf2_step(s: Bf2State, line: (int, Seq<char>)) -> Result<Bf2State, Ir2ErrorV> {
    let (no, text) = line;
    match s {
        Bf2State::Top { funcs } => match parse_func_header_spec(no, text) {
            Ok((name, entry)) => Ok(Bf2State::InFunc { funcs, name, entry, blocks: Seq::empty() }),
            Err(e) => Err(e),
        },
        Bf2State::InFunc { funcs, name, entry, blocks } => func_step(
            funcs,
            name,
            entry,
            blocks,
            line,
        ),
        Bf2State::InBlock { funcs, name, entry, blocks, id, insts, term } => {
            if text == "END_FUNC"@ || has_prefix(text, "BLOCK "@) {
                match term {
                    None => Err(Ir2ErrorV::ParseMissingTerminator { function: name, block_id: id }),
                    Some(_) => func_step(funcs, name, entry, blocks.push((id, insts, term)), line),
                }
            } else if has_prefix(text, "TERM "@) {
                if term is Some {
                    Err(Ir2ErrorV::TerminatorAlreadySet { block_id: id })
                } else {
                    match parse_term_spec(no, text.skip("TERM "@.len() as int)) {
                        Ok(t) => Ok(
                            Bf2State::InBlock {
                                funcs,
                                name,
                                entry,
                                blocks,
                                id,
                                insts,
                                term: Some(t),
                            },
                        ),
                        Err(e) => Err(e),
                    }
                }
            } else {
                match parse_inst2_spec(no, text) {
                    Ok(i) => Ok(
                        Bf2State::InBlock {
                            funcs,
                            name,
                            entry,
                            blocks,
                            id,
                            insts: insts.push(i),
                            term,
                        },
                    ),
                    Err(e) => Err(e),
                }
            }
        },
    }
}

/// The reading state after the BF2 lines `lines`, or the first error.
pub open spec fn bf2_fold(lines: Seq<(int, Seq<char>)>) -> Result<Bf2State, Ir2ErrorV>
    decreases lines.len(),
{
    if lines.len() == 0 {
        Ok(Bf2State::Top { funcs: Seq::empty() })
    } else {
        match bf2_fold(lines.drop_last()) {
            Err(e) => Err(e),
            Ok(st) => bf2_step(st, lines.last()),
        }
    }
}

/// The program read when the lines run out in state `s`.
pub open spec fn bf2_finish(s: Bf2State) -> Result<Seq<FuncV>, Ir2ErrorV> {
    match s {
        Bf2State::Top { funcs } => Ok(funcs),
        Bf2State::InFunc { name, .. } => Err(Ir2ErrorV::ParseMissingEndFunc { function: name }),
        Bf2State::InBlock { name, id, term, .. } => if term is None {
            Err(Ir2ErrorV::ParseMissingTerminator { function: name, block_id: id })
        } else {
            Err(Ir2ErrorV::ParseMissingEndFunc { function: name })
        },
    }
}

/// The program that the BF2 text `s` denotes, or the error that reading it
/// meets first.
pub open spec fn bf2_parse(s: Seq<char>) -> Result<Seq<FuncV>, Ir2ErrorV> {
    let lines = meaningful_lines(s);
    if lines.len() == 0 {
        Err(Ir2ErrorV::ParseInvalidHeader { found: "<empty>"@ })
    } else if lines[0].1 != "BF2"@ {
        Err(Ir2ErrorV::ParseInvalidHeader { found: lines[0].1 })
    } else {
        match bf2_fold(lines.drop_first()) {
            Err(e) => Err(e),
            Ok(st) => bf2_finish(st),
        }
    }
}

proof fn lemma_bf2_fold_err_persists(lines: Seq<(int, Seq<char>)>, k: int)
    requires
        0 <= k <= lines.len(),
        bf2_fold(lines.take(k)) is Err,
    ensures
        bf2_fold(lines) == bf2_fold(lines.take(k)),
    decreases lines.len() - k,
{
    if k == lines.len() {
        assert(lines.take(k) =~= lines);
    } else {
        assert(lines.take(k + 1).drop_last() =~= lines.take(k));
        lemma_bf2_fold_err_persists(lines, k + 1);
    }
}

/// The exec reading state as a [`Bf2State`].
spec fn state_of(
    mode: u8,
    funcs: Seq<Ir2Function>,
    name: Seq<char>,
    entry: usize,
    blocks: Seq<Ir2Block>,
    id: usize,
    insts: Seq<Ir2Inst>,
    term: Option<Ir2Terminator>,
) -> Bf2State {
    if mode == 0 {
        Bf2State::Top { funcs: funcs_view(funcs) }
    } else if mode == 1 {
        Bf2State::InFunc { funcs: funcs_view(funcs), name, entry, blocks: blocks_view(blocks) }
    } else {
        Bf2State::InBlock {
            funcs: funcs_view(funcs),
            name,
            entry,
            blocks: blocks_view(blocks),
            id,
            insts,
            term,
        }
    }
}

fn err_content(line: usize, content: &Vec<char>) -> (r: String)
    ensures
        r@ == content@,
{
    string_from_chars(content)
}

impl Ir2Program {
    /// The BF2 text of this program.
    pub fn to_bf2_string(&self) -> (r: String)
        ensures
            r@ == bf2_text(self@),
    {
        let mut out: Vec<char> = Vec::new();
        push_str(&mut out, "BF2\n");
        let ghost fs = self@;
        let nf = self.functions.len();
        let mut fi: usize = 0;
        assert(fs.take(0) =~= Seq::<FuncV>::empty());
        while fi < nf
            invariant
                fi <= nf,
                nf == self.functions@.len(),
                fs == self@,
                out@ == "BF2\n"@ + funcs_text(fs.take(fi as int)),
            decreases nf - fi,
        {
            let ghost fstart = out@;
            Self::emit_bf2_function(&self.functions[fi], &mut out);
            proof {
                assert(fs.take(fi + 1).drop_last() =~= fs.take(fi as int));
                assert(fs.take(fi + 1).last() == self.functions@[fi as int]@);
            }
            fi = fi + 1;
        }
        assert(fs.take(nf as int) =~= fs);
        string_from_chars(&out)
    }

    fn emit_bf2_function(func: &Ir2Function, out: &mut Vec<char>)
        ensures
            final(out)@ == old(out)@ + func_text(func@),
    {
        push_str(out, "FUNC ");
        push_str(out, func.name.as_str());
        push_str(out, " ENTRY ");
        push_usize(out, func.entry);
        push_str(out, "\n");
        let ghost head = out@;
        let ghost bs = blocks_view(func.blocks@);
        let nb = func.blocks.len();
        let mut bi: usize = 0;
        assert(bs.take(0) =~= Seq::<BlockV>::empty());
        assert(head + blocks2_text(Seq::<BlockV>::empty()) =~= head);
        while bi < nb
            invariant
                bi <= nb,
                nb == func.blocks@.len(),
                bs == blocks_view(func.blocks@),
                out@ == head + blocks2_text(bs.take(bi as int)),
            decreases nb - bi,
        {
            Self::emit_bf2_block(&func.blocks[bi], out);
            proof {
                assert(bs.take(bi + 1).drop_last() =~= bs.take(bi as int));
                assert(bs.take(bi + 1).last() == func.blocks@[bi as int]@);
            }
            bi = bi + 1;
        }
        push_str(out, "END_FUNC\n");
        assert(bs.take(nb as int) =~= bs);
        assert(out@ =~= old(out)@ + func_text(func@));
    }

    fn emit_bf2_block(block: &Ir2Block, out: &mut Vec<char>)
        ensures
            final(out)@ == old(out)@ + block2_text(block@),
    {
        push_str(out, "BLOCK ");
        push_usize(out, block.id);
        push_str(out, "\n");
        let ghost bhead = out@;
        let ni = block.insts.len();
        let mut ii: usize = 0;
        assert(block.insts@.take(0) =~= Seq::<Ir2Inst>::empty());
        assert(bhead + insts_text(Seq::<Ir2Inst>::empty()) =~= bhead);
        while ii < ni
            invariant
                ii <= ni,
                ni == block.insts@.len(),
                out@ == bhead + insts_text(block.insts@.take(ii as int)),
            decreases ni - ii,
        {
            let ghost istart = out@;
            match block.insts[ii] {
                Ir2Inst::AddPtrImm(v) => {
                    push_str(out, "  PTR ");
                    push_i64(out, v);
                    push_str(out, "\n");
                },
                Ir2Inst::AddCellImm(v) => {
                    push_str(out, "  CELL ");
                    push_i64(out, v);
                    push_str(out, "\n");
                },
                Ir2Inst::ReadByteToCell => push_str(out, "  IN\n"),
                Ir2Inst::WriteCellLow8 => push_str(out, "  OUT\n"),
            }
            proof {
                assert(block.insts@.take(ii + 1).drop_last() =~= block.insts@.take(ii as int));
                assert(block.insts@.take(ii + 1).last() == block.insts@[ii as int]);
                assert(out@ =~= istart + inst2_text(block.insts@[ii as int]));
            }
            ii = ii + 1;
        }
        let ghost tstart = out@;
        match &block.term {
            Some(Ir2Terminator::Jump(target)) => {
                push_str(out, "  TERM JUMP ");
                push_usize(out, *target);
                push_str(out, "\n");
            },
            Some(Ir2Terminator::BranchCellZero(zero, nonzero)) => {
                push_str(out, "  TERM BRANCH_ZERO ");
                push_usize(out, *zero);
                push_str(out, " ");
                push_usize(out, *nonzero);
                push_str(out, "\n");
            },
            Some(Ir2Terminator::Return) => {
                push_str(out, "  TERM RETURN\n");
            },
            None => {},
        }
        assert(out@ =~= tstart + term_text(block.term));
        assert(block.insts@.take(ni as int) =~= block.insts@);
        assert(out@ =~= old(out)@ + block2_text(block@));
    }

    fn parse_func_header(line: usize, content: &Vec<char>) -> (r: Result<(Vec<char>, BlockId), Ir2Error>)
        ensures
            match parse_func_header_spec(line as int, content@) {
                Ok((name, entry)) => r matches Ok((n, e)) && n@ == name && e == entry,
                Err(e) => r matches Err(x) && x@ == e,
            },
    {
        let parts = split_words(content);
        let ghost ws = words(content@);
        if parts.len() != 4 || !chars_eq_str(&parts[0], "FUNC") || !chars_eq_str(&parts[2], "ENTRY") {
            return Err(Ir2Error::ParseInvalidFunctionHeader {
                line,
                content: err_content(line, content),
            });
        }
        assert(parts@[1]@ == ws[1] && parts@[3]@ == ws[3]);
        match parse_usize(&parts[3]) {
            Some(entry) => {
                let name = subvec(&parts[1], 0, parts[1].len());
                assert(name@ =~= ws[1]);
                Ok((name, entry))
            },
            None => Err(Ir2Error::ParseInvalidOperand { line, content: err_content(line, content) }),
        }
    }

    fn parse_block_header(line: usize, content: &Vec<char>) -> (r: Result<BlockId, Ir2Error>)
        ensures
            match parse_block_header_spec(line as int, content@) {
                Ok(id) => r == Ok::<BlockId, Ir2Error>(id),
                Err(e) => r matches Err(x) && x@ == e,
            },
    {
        let parts = split_words(content);
        let ghost ws = words(content@);
        if parts.len() != 2 || !chars_eq_str(&parts[0], "BLOCK") {
            return Err(Ir2Error::ParseInvalidBlockHeader {
                line,
                content: err_content(line, content),
            });
        }
        assert(parts@[1]@ == ws[1]);
        match parse_usize(&parts[1]) {
            Some(id) => Ok(id),
            None => Err(Ir2Error::ParseInvalidOperand { line, content: err_content(line, content) }),
        }
    }

    fn parse_inst(line: usize, content: &Vec<char>) -> (r: Result<Ir2Inst, Ir2Error>)
        ensures
            match parse_inst2_spec(line as int, content@) {
                Ok(i) => r == Ok::<Ir2Inst, Ir2Error>(i),
                Err(e) => r matches Err(x) && x@ == e,
            },
    {
        let parts = split_words(content);
        let ghost ws = words(content@);
        if parts.len() == 0 {
            return Err(Ir2Error::ParseInvalidInstruction {
                line,
                content: err_content(line, content),
            });
        }
        assert(parts@[0]@ == ws[0]);
        let is_ptr = chars_eq_str(&parts[0], "PTR");
        let is_cell = chars_eq_str(&parts[0], "CELL");
        let is_in = chars_eq_str(&parts[0], "IN");
        let is_out = chars_eq_str(&parts[0], "OUT");
        if is_ptr || is_cell {
            if parts.len() != 2 {
                return Err(Ir2Error::ParseInvalidOperand {
                    line,
                    content: err_content(line, content),
                });
            }
            assert(parts@[1]@ == ws[1]);
            match parse_i64(&parts[1]) {
                Some(v) => if is_ptr {
                    Ok(Ir2Inst::AddPtrImm(v))
                } else {
                    Ok(Ir2Inst::AddCellImm(v))
                },
                None => Err(Ir2Error::ParseInvalidOperand {
                    line,
                    content: err_content(line, content),
                }),
            }
        } else if is_in || is_out {
            if parts.len() != 1 {
                return Err(Ir2Error::ParseInvalidOperand {
                    line,
                    content: err_content(line, content),
                });
            }
            if is_in {
                Ok(Ir2Inst::ReadByteToCell)
            } else {
                Ok(Ir2Inst::WriteCellLow8)
            }
        } else {
            Err(Ir2Error::ParseInvalidInstruction { line, content: err_content(line, content) })
        }
    }

    fn parse_term(line: usize, content: &Vec<char>) -> (r: Result<Ir2Terminator, Ir2Error>)
        ensures
            match parse_term_spec(line as int, content@) {
                Ok(t) => r == Ok::<Ir2Terminator, Ir2Error>(t),
                Err(e) => r matches Err(x) && x@ == e,
            },
    {
        let parts = split_words(content);
        let ghost ws = words(content@);
        if parts.len() == 0 {
            return Err(Ir2Error::ParseInvalidInstruction {
                line,
                content: err_content(line, content),
            });
        }
        let mut full: Vec<char> = Vec::new();
        push_str(&mut full, "TERM ");
        push_chars(&mut full, content);
        assert(parts@[0]@ == ws[0]);
        if chars_eq_str(&parts[0], "RETURN") {
            if parts.len() != 1 {
                return Err(Ir2Error::ParseInvalidOperand { line, content: string_from_chars(&full) });
            }
            Ok(Ir2Terminator::Return)
        } else if chars_eq_str(&parts[0], "JUMP") {
            if parts.len() != 2 {
                return Err(Ir2Error::ParseInvalidOperand { line, content: string_from_chars(&full) });
            }
            assert(parts@[1]@ == ws[1]);
            match parse_usize(&parts[1]) {
                Some(t) => Ok(Ir2Terminator::Jump(t)),
                None => Err(Ir2Error::ParseInvalidOperand { line, content: string_from_chars(&full) }),
            }
        } else if chars_eq_str(&parts[0], "BRANCH_ZERO") {
            if parts.len() != 3 {
                return Err(Ir2Error::ParseInvalidOperand { line, content: string_from_chars(&full) });
            }
            assert(parts@[1]@ == ws[1] && parts@[2]@ == ws[2]);
            let zero = parse_usize(&parts[1]);
            let nonzero = parse_usize(&parts[2]);
            match (zero, nonzero) {
                (Some(z), Some(nz)) => Ok(Ir2Terminator::BranchCellZero(z, nz)),
                _ => Err(Ir2Error::ParseInvalidOperand { line, content: string_from_chars(&full) }),
            }
        } else {
            Err(Ir2Error::ParseInvalidInstruction { line, content: string_from_chars(&full) })
        }
    }
}

fn has_block_with_id(blocks: &Vec<Ir2Block>, id: usize) -> (r: bool)
    ensures
        r == has_block(blocks_view(blocks@), id),
{
    let n = blocks.len();
    let mut i: usize = 0;
    while i < n
        invariant
            i <= n,
            n == blocks@.len(),
            forall|k: int| 0 <= k < i ==> blocks@[k].id != id,
        decreases n - i,
    {
        if blocks[i].id == id {
            assert(blocks_view(blocks@)[i as int].0 == id);
            return true;
        }
        i = i + 1;
    }
    assert forall|k: int| 0 <= k < blocks_view(blocks@).len() implies (#[trigger] blocks_view(
        blocks@,
    )[k]).0 != id by {
        assert(blocks_view(blocks@)[k] == blocks@[k]@);
    }
    false
}

impl Ir2Program {
    /// The program that the BF2 text `input` denotes.
    pub fn from_bf2_str(input: &str) -> (r: Result<Ir2Program, Ir2Error>)
        ensures
            match bf2_parse(input@) {
                Ok(p) => r matches Ok(q) && q@ == p,
                Err(e) => r matches Err(x) && x@ == e,
            },
    {
        let chars = chars_of(input);
        let lines = meaningful_lines_of(&chars);
        if lines.len() == 0 {
            let found = chars_of("<empty>");
            return Err(Ir2Error::ParseInvalidHeader { found: string_from_chars(&found) });
        }
        assert(lines_view(lines@)[0] == (lines@[0].no as int, lines@[0].text@));
        if !chars_eq_str(&lines[0].text, "BF2") {
            return Err(Ir2Error::ParseInvalidHeader { found: string_from_chars(&lines[0].text) });
        }
        let ghost all = lines_view(lines@);
        let ghost body = all.drop_first();
        assert(all[0].1 == "BF2"@);
        let n = lines.len();
        let mut funcs: Vec<Ir2Function> = Vec::new();
        let mut mode: u8 = 0;
        let mut name: Vec<char> = Vec::new();
        let mut entry: usize = 0;
        let mut blocks: Vec<Ir2Block> = Vec::new();
        let mut id: usize = 0;
        let mut insts: Vec<Ir2Inst> = Vec::new();
        let mut term: Option<Ir2Terminator> = None;
        let term_prefix = chars_of("TERM ");
        let mut idx: usize = 1;
        assert(body.take(0) =~= Seq::<(int, Seq<char>)>::empty());
        assert(funcs_view(funcs@) =~= Seq::<FuncV>::empty());
        while idx < n
            invariant
                1 <= idx <= n,
                n == lines@.len(),
                all == lines_view(lines@),
                body == all.drop_first(),
                meaningful_lines(input@) == all,
                all.len() >= 1,
                all[0].1 == "BF2"@,
                term_prefix@ == "TERM "@,
                mode <= 2,
                bf2_fold(body.take(idx - 1)) == Ok::<Bf2State, Ir2ErrorV>(
                    state_of(mode, funcs@, name@, entry, blocks@, id, insts@, term),
                ),
            decreases n - idx,
        {
            let line = &lines[idx];
            let ghost st = state_of(mode, funcs@, name@, entry, blocks@, id, insts@, term);
            let ghost ln = (line.no as int, line.text@);
            proof {
                assert(body.take(idx as int).drop_last() =~= body.take(idx - 1));
                assert(body.take(idx as int).last() == all[idx as int]);
                assert(all[idx as int] == ln);
            }
            assert(bf2_fold(body.take(idx as int)) == bf2_step(st, ln));
            let mut handled = false;
            if mode == 2 {
                let is_end = chars_eq_str(&line.text, "END_FUNC");
                let is_block = starts_with_str(&line.text, "BLOCK ");
                if is_end || is_block {
                    if term.is_none() {
                        proof {
                            lemma_bf2_fold_err_persists(body, idx as int);
                        }
                        return Err(Ir2Error::ParseMissingTerminator {
                            function: string_from_chars(&name),
                            block_id: id,
                        });
                    }
                    let mut taken: Vec<Ir2Inst> = Vec::new();
                    std::mem::swap(&mut taken, &mut insts);
                    let b = Ir2Block { id, insts: taken, term };
                    let ghost old_blocks = blocks@;
                    blocks.push(b);
                    assert(blocks_view(blocks@) =~= blocks_view(old_blocks).push(b@));
                    term = None;
                    mode = 1;
                } else if starts_with_str(&line.text, "TERM ") {
                    if term.is_some() {
                        proof {
                            lemma_bf2_fold_err_persists(body, idx as int);
                        }
                        return Err(Ir2Error::TerminatorAlreadySet { block_id: id });
                    }
                    let rest = subvec(&line.text, term_prefix.len(), line.text.len());
                    assert(rest@ =~= line.text@.skip("TERM "@.len() as int));
                    match Self::parse_term(line.no, &rest) {
                        Ok(t) => {
                            term = Some(t);
                        },
                        Err(e) => {
                            proof {
                                lemma_bf2_fold_err_persists(body, idx as int);
                            }
                            return Err(e);
                        },
                    }
                    handled = true;
                } else {
                    match Self::parse_inst(line.no, &line.text) {
                        Ok(i) => {
                            insts.push(i);
                        },
                        Err(e) => {
                            proof {
                                lemma_bf2_fold_err_persists(body, idx as int);
                            }
                            return Err(e);
                        },
                    }
                    handled = true;
                }
            }
            if !handled {
                if mode == 1 {
                    if chars_eq_str(&line.text, "END_FUNC") {
                        if !has_block_with_id(&blocks, entry) {
                            proof {
                                lemma_bf2_fold_err_persists(body, idx as int);
                            }
                            return Err(Ir2Error::EntryBlockNotFound {
                                function: string_from_chars(&name),
                                entry,
                            });
                        }
                        let mut taken: Vec<Ir2Block> = Vec::new();
                        std::mem::swap(&mut taken, &mut blocks);
                        let f = Ir2Function { name: string_from_chars(&name), entry, blocks: taken };
                        let ghost old_funcs = funcs@;
                        funcs.push(f);
                        assert(funcs_view(funcs@) =~= funcs_view(old_funcs).push(f@));
                        mode = 0;
                    } else {
                        match Self::parse_block_header(line.no, &line.text) {
                            Ok(b) => {
                                id = b;
                            },
                            Err(e) => {
                                proof {
                                    lemma_bf2_fold_err_persists(body, idx as int);
                                }
                                return Err(e);
                            },
                        }
                        insts = Vec::new();
                        term = None;
                        mode = 2;
                    }
                } else {
                    match Self::parse_func_header(line.no, &line.text) {
                        Ok((nm, e)) => {
                            name = nm;
                            entry = e;
                        },
                        Err(e) => {
                            proof {
                                lemma_bf2_fold_err_persists(body, idx as int);
                            }
                            return Err(e);
                        },
                    }
                    blocks = Vec::new();
                    mode = 1;
                }
            }
            proof {
                assert(bf2_fold(body.take(idx as int)) == Ok::<Bf2State, Ir2ErrorV>(
                    state_of(mode, funcs@, name@, entry, blocks@, id, insts@, term),
                )) by {
                    assert(blocks_view(Seq::<Ir2Block>::empty()) =~= Seq::<BlockV>::empty());
                }
            }
            idx = idx + 1;
        }
        assert(body.take(n - 1) =~= body);
        if mode == 0 {
            Ok(Ir2Program { functions: funcs })
        } else if mode == 1 {
            Err(Ir2Error::ParseMissingEndFunc { function: string_from_chars(&name) })
        } else if term.is_none() {
            Err(Ir2Error::ParseMissingTerminator { function: string_from_chars(&name), block_id: id })
        } else {
            Err(Ir2Error::ParseMissingEndFunc { function: string_from_chars(&name) })
        }
    }
}
} // verus!
