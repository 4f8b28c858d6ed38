//! IR1: a tree of coalesced pointer moves and cell additions, lowered from the
//! AST, with its textual form BF1.
use vstd::prelude::*;

use crate::bferror::{ir1_error_message, Ir1Error, Ir1ErrorV};
use crate::lexer::Token;
use crate::linked_list::List;
use crate::logging::{emitted_lines, LogLevel, Logger};
use crate::parser::{ast_view, node_view, Ast, AstNode, NodeV};
use crate::text::{
    chars_eq_str, chars_of, int_dec, meaningful_lines, meaningful_lines_of, parse_i64,
    parse_i64_spec, push_chars, push_i64, push_str, push_usize, split_words, string_from_chars,
    vecs_view, words, lines_view, Line,
};

verus! {

/// A program in IR1: its top-level block.
#[derive(Clone, Debug, PartialEq, Eq)]
pub struct Ir1Program {
    pub root: Ir1Block,
}

/// A block of IR1 instructions.
pub type Ir1Block = Vec<Ir1Inst>;

/// An IR1 instruction.
#[derive(Debug, PartialEq, Eq)]
pub enum Ir1Inst {
    PtrMove(i64),
    CellAdd(i64),
    Input,
    Output,
    Loop(Ir1Block),
}

/// Abstract value of an [`Ir1Inst`].
pub enum Ir1InstV {
    PtrMove(i64),
    CellAdd(i64),
    Input,
    Output,
    Loop(Seq<Ir1InstV>),
}

pub open spec fn inst_view(i: Ir1Inst) -> Ir1InstV
    decreases i,
{
    match i {
        Ir1Inst::PtrMove(v) => Ir1InstV::PtrMove(v),
        Ir1Inst::CellAdd(v) => Ir1InstV::CellAdd(v),
        Ir1Inst::Input => Ir1InstV::Input,
        Ir1Inst::Output => Ir1InstV::Output,
        Ir1Inst::Loop(b) => Ir1InstV::Loop(block_view(b@)),
    }
}

/// The abstract value of a block: the values of its instructions in order.
pub open spec fn block_view(b: Seq<Ir1Inst>) -> Seq<Ir1InstV>
    decreases b,
{
    Seq::new(
        b.len(),
        |i: int|
            if 0 <= i < b.len() {
                inst_view(b[i])
            } else {
                Ir1InstV::Input
            },
    )
}

impl View for Ir1Program {
    type V = Seq<Ir1InstV>;

    open spec fn view(&self) -> Seq<Ir1InstV> {
        block_view(self.root@)
    }
}

/// A measure of an instruction that nesting strictly decreases.
pub open spec fn inst_size(i: Ir1Inst) -> nat
    decreases i,
{
    match i {
        Ir1Inst::Loop(b) => 1 + block_size(b@),
        _ => 1,
    }
}

/// A measure of a block: the sum of the measures of its instructions.
pub open spec fn block_size(b: Seq<Ir1Inst>) -> nat
    decreases b,
{
    if b.len() == 0 {
        0
    } else {
        inst_size(b[0]) + block_size(b.subrange(1, b.len() as int))
    }
}

pub(crate) proof fn lemma_block_size_elem(b: Seq<Ir1Inst>, i: int)
    requires
        0 <= i < b.len(),
    ensures
        inst_size(b[i]) <= block_size(b),
    decreases b.len(),
{
    if i > 0 {
        let t = b.subrange(1, b.len() as int);
        assert(t[i - 1] == b[i]);
        lemma_block_size_elem(t, i - 1);
    }
}

impl Clone for Ir1Inst {
    fn clone(&self) -> (r: Self)
        ensures
            inst_view(r) == inst_view(*self),
    {
        clone_inst(self)
    }
}

fn clone_inst(i: &Ir1Inst) -> (r: Ir1Inst)
    ensures
        inst_view(r) == inst_view(*i),
    decreases inst_size(*i), 0nat,
{
    match i {
        Ir1Inst::PtrMove(v) => Ir1Inst::PtrMove(*v),
        Ir1Inst::CellAdd(v) => Ir1Inst::CellAdd(*v),
        Ir1Inst::Input => Ir1Inst::Input,
        Ir1Inst::Output => Ir1Inst::Output,
        Ir1Inst::Loop(b) => Ir1Inst::Loop(clone_block(b)),
    }
}

/// A copy of the block `b`, instruction by instruction.
fn clone_block(b: &Vec<Ir1Inst>) -> (r: Vec<Ir1Inst>)
    ensures
        block_view(r@) == block_view(b@),
    decreases block_size(b@), 1nat,
{
    let n = b.len();
    let mut out: Vec<Ir1Inst> = Vec::new();
    let mut i: usize = 0;
    while i < n
        invariant
            i <= n,
            n == b@.len(),
            out@.len() == i,
            forall|k: int| 0 <= k < i ==> inst_view(#[trigger] out@[k]) == inst_view(b@[k]),
        decreases n - i,
    {
        proof {
            lemma_block_size_elem(b@, i as int);
        }
        let c = clone_inst(&b[i]);
        out.push(c);
        i = i + 1;
    }
    assert(block_view(out@) =~= block_view(b@));
    out
}

proof fn lemma_block_view_push(b: Seq<Ir1Inst>, i: Ir1Inst)
    ensures
        block_view(b.push(i)) == block_view(b).push(inst_view(i)),
{
    assert(block_view(b.push(i)) =~= block_view(b).push(inst_view(i)));
}

// ---------------------------------------------------------------------------
// Lowering from the AST
// ---------------------------------------------------------------------------

/// `out` with the pending pointer move `p` appended, if it is not zero.
pub open spec fn flush_ptr_spec(out: Seq<Ir1InstV>, p: int) -> Seq<Ir1InstV> {
    if p != 0 {
        out.push(Ir1InstV::PtrMove(p as i64))
    } else {
        out
    }
}

/// `out` with the pending cell addition `c` appended, if it is not zero.
pub open spec fn flush_cell_spec(out: Seq<Ir1InstV>, c: int) -> Seq<Ir1InstV> {
    if c != 0 {
        out.push(Ir1InstV::CellAdd(c as i64))
    } else {
        out
    }
}

/// The state of lowering a run: the pending pointer move, the pending cell
/// addition, and the instructions emitted so far.
pub open spec fn run_step(st: (int, int, Seq<Ir1InstV>), t: Token) -> (int, int, Seq<Ir1InstV>) {
    let (p, c, out) = st;
    match t {
        Token::MOVR => (p + 1, 0, flush_cell_spec(out, c)),
        Token::MOVL => (p - 1, 0, flush_cell_spec(out, c)),
        Token::INC => (0, c + 1, flush_ptr_spec(out, p)),
        Token::DEC => (0, c - 1, flush_ptr_spec(out, p)),
        Token::INPUT => (0, 0, flush_cell_spec(flush_ptr_spec(out, p), c).push(Ir1InstV::Input)),
        Token::OUTPUT => (0, 0, flush_cell_spec(flush_ptr_spec(out, p), c).push(Ir1InstV::Output)),
        _ => st,
    }
}

/// The lowering state after the tokens `ts`.
pub open spec fn run_state(ts: Seq<Token>) -> (int, int, Seq<Ir1InstV>)
    decreases ts.len(),
{
    if ts.len() == 0 {
        (0, 0, Seq::empty())
    } else {
        run_step(run_state(ts.drop_last()), ts.last())
    }
}

/// The instructions that a run of tokens lowers to: consecutive moves and
/// consecutive additions merged, zero sums dropped.
pub open spec fn lower_run_spec(ts: Seq<Token>) -> Seq<Ir1InstV> {
    let st = run_state(ts);
    flush_cell_spec(flush_ptr_spec(st.2, st.0), st.1)
}

pub open spec fn has_bracket(ts: Seq<Token>) -> bool {
    exists|i: int| 0 <= i < ts.len() && (ts[i] == Token::JMPIN || ts[i] == Token::JMPOUT)
}

/// What a node lowers to; `None` when a run holds a bracket.
pub open spec fn lower_node(n: NodeV) -> Option<Seq<Ir1InstV>>
    decreases n,
{
    match n {
        NodeV::Run(ts) => if has_bracket(ts) {
            None
        } else {
            Some(lower_run_spec(ts))
        },
        NodeV::Loop(b) => match lower_nodes(b) {
            Some(x) => Some(seq![Ir1InstV::Loop(x)]),
            None => None,
        },
    }
}

/// What a sequence of nodes lowers to: the lowerings of its nodes, in order;
/// `None` when some run holds a bracket.
pub open spec fn lower_nodes(ns: Seq<NodeV>) -> Option<Seq<Ir1InstV>>
    decreases ns,
{
    if ns.len() == 0 {
        Some(Seq::empty())
    } else {
        match lower_node(ns[0]) {
            None => None,
            Some(a) => match lower_nodes(ns.subrange(1, ns.len() as int)) {
                None => None,
                Some(b) => Some(a + b),
            },
        }
    }
}

/// Whether every run of the nodes is short enough that a sum of its unit
/// steps fits in an `i64`.
pub open spec fn runs_fit(ns: Seq<NodeV>) -> bool
    decreases ns,
{
    if ns.len() == 0 {
        true
    } else {
        runs_fit_node(ns[0]) && runs_fit(ns.subrange(1, ns.len() as int))
    }
}

pub open spec fn runs_fit_node(n: NodeV) -> bool
    decreases n,
{
    match n {
        NodeV::Run(ts) => ts.len() <= i64::MAX,
        NodeV::Loop(b) => runs_fit(b),
    }
}

pub open spec fn list_size(l: List<AstNode>) -> nat
    decreases l,
{
    match l {
        List::Nil => 0,
        List::Cons(h, t) => node_size(h) + list_size(*t),
    }
}

pub open spec fn node_size(n: AstNode) -> nat
    decreases n,
{
    match n {
        AstNode::Run(_) => 1,
        AstNode::Loop(b) => 1 + list_size(*b),
    }
}

pub open spec fn combine(a: Seq<Ir1InstV>, rest: Option<Seq<Ir1InstV>>) -> Option<Seq<Ir1InstV>> {
    match rest {
        Some(b) => Some(a + b),
        None => None,
    }
}

/// The lines that lowering with a logger of threshold `t` queues: a start
/// record, then a summary of the result or the error.
pub open spec fn ir1_lower_log(t: LogLevel, r: Result<Ir1Program, Ir1Error>) -> Seq<Seq<char>> {
    emitted_lines(t, LogLevel::Info, "IR1"@, None, "I_IR1_LOWER"@, "lowering AST to IR1"@) + match r {
        Ok(p) => emitted_lines(
            t,
            LogLevel::Debug,
            "IR1"@,
            None,
            "D_IR1_LOWER_DONE"@,
            "root_insts="@ + int_dec(p.root@.len() as int),
        ),
        Err(e) => emitted_lines(t, LogLevel::Error, "IR1"@, None, "E_IR1_LOWER"@, ir1_error_message(e@)),
    }
}

impl Ir1Program {
    fn flush_ptr(ptr_delta: &mut i64, out_block: &mut Ir1Block)
        ensures
            *final(ptr_delta) == 0,
            block_view(final(out_block)@) == flush_ptr_spec(
                block_view(old(out_block)@),
                *old(ptr_delta) as int,
            ),
    {
        if *ptr_delta != 0 {
            proof {
                lemma_block_view_push(out_block@, Ir1Inst::PtrMove(*ptr_delta));
            }
            out_block.push(Ir1Inst::PtrMove(*ptr_delta));
            *ptr_delta = 0;
        }
    }

    fn flush_cell(cell_delta: &mut i64, out_block: &mut Ir1Block)
        ensures
            *final(cell_delta) == 0,
            block_view(final(out_block)@) == flush_cell_spec(
                block_view(old(out_block)@),
                *old(cell_delta) as int,
            ),
    {
        if *cell_delta != 0 {
            proof {
                lemma_block_view_push(out_block@, Ir1Inst::CellAdd(*cell_delta));
            }
            out_block.push(Ir1Inst::CellAdd(*cell_delta));
            *cell_delta = 0;
        }
    }

    /// Appends the lowering of the run `tkstream` to `out_block`.
    fn lower_run(tkstream: &[Token], out_block: &mut Ir1Block) -> (r: Result<(), Ir1Error>)
        requires
            tkstream@.len() <= i64::MAX,
        ensures
            r is Ok <==> !has_bracket(tkstream@),
            r is Err ==> r == Err::<(), Ir1Error>(Ir1Error::UnexpectedBracketInRun),
            r is Ok ==> block_view(final(out_block)@) == block_view(old(out_block)@) + lower_run_spec(
                tkstream@,
            ),
    {
        let mut ptr_delta: i64 = 0;
        let mut cell_delta: i64 = 0;
        let n = tkstream.len();
        let ghost base = block_view(out_block@);
        let mut i: usize = 0;
        assert(tkstream@.take(0) =~= Seq::<Token>::empty());
        assert(base + Seq::<Ir1InstV>::empty() =~= base);
        while i < n
            invariant
                i <= n,
                n == tkstream@.len(),
                n <= i64::MAX,
                -(i as int) <= ptr_delta <= i,
                -(i as int) <= cell_delta <= i,
                run_state(tkstream@.take(i as int)).0 == ptr_delta,
                run_state(tkstream@.take(i as int)).1 == cell_delta,
                block_view(out_block@) == base + run_state(tkstream@.take(i as int)).2,
                !has_bracket(tkstream@.take(i as int)),
            decreases n - i,
        {
            let ghost pre = tkstream@.take(i as int);
            let ghost st = run_state(pre);
            proof {
                assert(tkstream@.take(i + 1).drop_last() =~= pre);
                assert(tkstream@.take(i + 1).last() == tkstream@[i as int]);
            }
            match tkstream[i] {
                Token::MOVR => {
                    Ir1Program::flush_cell(&mut cell_delta, out_block);
                    ptr_delta = ptr_delta + 1;
                    assert(base + flush_cell_spec(st.2, st.1) =~= flush_cell_spec(base + st.2, st.1));
                },
                Token::MOVL => {
                    Ir1Program::flush_cell(&mut cell_delta, out_block);
                    ptr_delta = ptr_delta - 1;
                    assert(base + flush_cell_spec(st.2, st.1) =~= flush_cell_spec(base + st.2, st.1));
                },
                Token::INC => {
                    Ir1Program::flush_ptr(&mut ptr_delta, out_block);
                    cell_delta = cell_delta + 1;
                    assert(base + flush_ptr_spec(st.2, st.0) =~= flush_ptr_spec(base + st.2, st.0));
                },
                Token::DEC => {
                    Ir1Program::flush_ptr(&mut ptr_delta, out_block);
                    cell_delta = cell_delta - 1;
                    assert(base + flush_ptr_spec(st.2, st.0) =~= flush_ptr_spec(base + st.2, st.0));
                },
                Token::INPUT => {
                    Ir1Program::flush_ptr(&mut ptr_delta, out_block);
                    Ir1Program::flush_cell(&mut cell_delta, out_block);
                    proof {
                        lemma_block_view_push(out_block@, Ir1Inst::Input);
                    }
                    out_block.push(Ir1Inst::Input);
                    assert(base + flush_cell_spec(flush_ptr_spec(st.2, st.0), st.1).push(
                        Ir1InstV::Input,
                    ) =~= flush_cell_spec(flush_ptr_spec(base + st.2, st.0), st.1).push(
                        Ir1InstV::Input,
                    ));
                },
                Token::OUTPUT => {
                    Ir1Program::flush_ptr(&mut ptr_delta, out_block);
                    Ir1Program::flush_cell(&mut cell_delta, out_block);
                    proof {
                        lemma_block_view_push(out_block@, Ir1Inst::Output);
                    }
                    out_block.push(Ir1Inst::Output);
                    assert(base + flush_cell_spec(flush_ptr_spec(st.2, st.0), st.1).push(
                        Ir1InstV::Output,
                    ) =~= flush_cell_spec(flush_ptr_spec(base + st.2, st.0), st.1).push(
                        Ir1InstV::Output,
                    ));
                },
                Token::JMPIN | Token::JMPOUT => {
                    assert(has_bracket(tkstream@)) by {
                        assert(tkstream@[i as int] == Token::JMPIN || tkstream@[i as int]
                            == Token::JMPOUT);
                    }
                    return Err(Ir1Error::UnexpectedBracketInRun);
                },
                Token::COMMENT => {},
            }
            i = i + 1;
            proof {
                assert(!has_bracket(tkstream@.take(i as int))) by {
                    if has_bracket(tkstream@.take(i as int)) {
                        let k = choose|k: int|
                            0 <= k < tkstream@.take(i as int).len() && (tkstream@.take(
                                i as int,
                            )[k] == Token::JMPIN || tkstream@.take(i as int)[k] == Token::JMPOUT);
                        if k < i - 1 {
                            assert(pre[k] == tkstream@.take(i as int)[k]);
                        }
                    }
                }
            }
        }
        assert(tkstream@.take(n as int) =~= tkstream@);
        let ghost st = run_state(tkstream@);
        Ir1Program::flush_ptr(&mut ptr_delta, out_block);
        Ir1Program::flush_cell(&mut cell_delta, out_block);
        assert(base + flush_cell_spec(flush_ptr_spec(st.2, st.0), st.1) =~= flush_cell_spec(
            flush_ptr_spec(base + st.2, st.0),
            st.1,
        ));
        Ok(())
    }

    /// The IR1 block of the nodes `ast_nodes`.
    fn lower_block(ast_nodes: &List<AstNode>) -> (r: Result<Ir1Block, Ir1Error>)
        requires
            runs_fit(ast_view(*ast_nodes)),
        ensures
            r is Ok <==> lower_nodes(ast_view(*ast_nodes)) is Some,
            r is Err ==> r == Err::<Ir1Block, Ir1Error>(Ir1Error::UnexpectedBracketInRun),
            r matches Ok(b) ==> lower_nodes(ast_view(*ast_nodes)) == Some(block_view(b@)),
        decreases list_size(*ast_nodes),
    {
        let mut out_block: Ir1Block = Vec::new();
        let mut cursor: &List<AstNode> = ast_nodes;
        assert(block_view(out_block@) =~= Seq::<Ir1InstV>::empty());
        assert(Seq::<Ir1InstV>::empty() + block_view(out_block@) =~= Seq::<Ir1InstV>::empty());
        loop
            invariant
                list_size(*cursor) <= list_size(*ast_nodes),
                runs_fit(ast_view(*cursor)),
                lower_nodes(ast_view(*ast_nodes)) == combine(
                    block_view(out_block@),
                    lower_nodes(ast_view(*cursor)),
                ),
            ensures
                lower_nodes(ast_view(*ast_nodes)) == Some(block_view(out_block@)),
            decreases list_size(*cursor),
        {
            match cursor {
                List::Cons(node, next) => {
                    let ghost ns = ast_view(*cursor);
                    assert(ns == seq![node_view(*node)] + ast_view(**next));
                    assert(ns.subrange(1, ns.len() as int) =~= ast_view(**next));
                    assert(ns[0] == node_view(*node));
                    assert(runs_fit_node(ns[0]));
                    assert(runs_fit(ast_view(**next)));
                    assert(list_size(*cursor) == node_size(*node) + list_size(**next));
                    let ghost before = block_view(out_block@);
                    match node {
                        AstNode::Run(tkstream) => {
                            assert(node_view(*node) == NodeV::Run(tkstream@));
                            let res = Ir1Program::lower_run(tkstream.as_slice(), &mut out_block);
                            match res {
                                Err(e) => {
                                    assert(lower_node(ns[0]) is None);
                                    assert(lower_nodes(ns) is None);
                                    return Err(e);
                                },
                                Ok(()) => {},
                            }
                            assert(combine(before, lower_nodes(ns)) == combine(
                                block_view(out_block@),
                                lower_nodes(ast_view(**next)),
                            )) by {
                                let rest = lower_nodes(ast_view(**next));
                                if rest is Some {
                                    assert(before + (lower_run_spec(tkstream@) + rest->0) =~= (
                                    before + lower_run_spec(tkstream@)) + rest->0);
                                }
                            }
                        },
                        AstNode::Loop(inner_ast) => {
                            assert(node_view(*node) == NodeV::Loop(ast_view(**inner_ast)));
                            assert(node_size(*node) == 1 + list_size(**inner_ast));
                            let inner_block = Ir1Program::lower_block(&**inner_ast);
                            match inner_block {
                                Err(e) => {
                                    assert(lower_node(ns[0]) is None);
                                    assert(lower_nodes(ns) is None);
                                    return Err(e);
                                },
                                Ok(b) => {
                                    let ghost bv = block_view(b@);
                                    let inst = Ir1Inst::Loop(b);
                                    assert(inst_view(inst) == Ir1InstV::Loop(bv));
                                    assert(lower_node(ns[0]) == Some(seq![Ir1InstV::Loop(bv)]));
                                    proof {
                                        lemma_block_view_push(out_block@, inst);
                                    }
                                    out_block.push(inst);
                                    assert(combine(before, lower_nodes(ns)) == combine(
                                        block_view(out_block@),
                                        lower_nodes(ast_view(**next)),
                                    )) by {
                                        let rest = lower_nodes(ast_view(**next));
                                        if rest is Some {
                                            assert(before + (seq![inst_view(inst)] + rest->0) =~= (
                                            before.push(inst_view(inst))) + rest->0);
                                        }
                                    }
                                },
                            }
                        },
                    }
                    cursor = &**next;
                },
                List::Nil => {
                    assert(block_view(out_block@) + Seq::<Ir1InstV>::empty() =~= block_view(
                        out_block@,
                    ));
                    break;
                },
            }
        }
        Ok(out_block)
    }

    /// The IR1 program of `ast`; an error if a run of the tree holds a bracket.
    pub fn lower(ast: &Ast) -> (r: Result<Ir1Program, Ir1Error>)
        requires
            runs_fit(ast_view(*ast)),
        ensures
            r is Ok <==> lower_nodes(ast_view(*ast)) is Some,
            r is Err ==> r == Err::<Ir1Program, Ir1Error>(Ir1Error::UnexpectedBracketInRun),
            r matches Ok(p) ==> lower_nodes(ast_view(*ast)) == Some(p@),
    {
        let root = Ir1Program::lower_block(ast)?;
        Ok(Ir1Program { root })
    }

    /// As [`Ir1Program::lower`]; a start record and a summary are queued on
    /// `logger`.
    pub fn lower_with_logger(ast: &Ast, logger: Option<&mut Logger>) -> (r: Result<
        Ir1Program,
        Ir1Error,
    >)
        requires
            runs_fit(ast_view(*ast)),
        ensures
            r is Ok <==> lower_nodes(ast_view(*ast)) is Some,
            r is Err ==> r == Err::<Ir1Program, Ir1Error>(Ir1Error::UnexpectedBracketInRun),
            r matches Ok(p) ==> lower_nodes(ast_view(*ast)) == Some(p@),
            logger matches Some(l) ==> final(l).spec_threshold() == l.spec_threshold()
                && final(l).pending() == l.pending() + ir1_lower_log(l.spec_threshold(), r),
    {
        let r = Ir1Program::lower(ast);
        if let Some(l) = logger {
            let ghost p0 = l.pending();
            l.emit_raw(LogLevel::Info, "IR1", "I_IR1_LOWER", "lowering AST to IR1");
            let ghost p1 = l.pending();
            match &r {
                Ok(p) => {
                    let mut m: Vec<char> = Vec::new();
                    push_str(&mut m, "root_insts=");
                    push_usize(&mut m, p.root.len());
                    let ms = string_from_chars(&m);
                    l.emit_raw(LogLevel::Debug, "IR1", "D_IR1_LOWER_DONE", ms.as_str());
                },
                Err(e) => {
                    let ms = e.message();
                    l.emit_raw(LogLevel::Error, "IR1", "E_IR1_LOWER", ms.as_str());
                },
            }
            assert(l.pending() =~= p0 + ir1_lower_log(l.spec_threshold(), r));
        }
        r
    }
}


// ---------------------------------------------------------------------------
// The BF1 text format
// ---------------------------------------------------------------------------

/// The BF1 lines of an instruction, each line indented by `pad`.
pub open spec fn inst_text(i: Ir1InstV, pad: Seq<char>) -> Seq<char>
    decreases i,
{
    match i {
        Ir1InstV::PtrMove(v) => pad + "PTR "@ + int_dec(v as int) + "\n"@,
        Ir1InstV::CellAdd(v) => pad + "CELL "@ + int_dec(v as int) + "\n"@,
        Ir1InstV::Input => pad + "IN\n"@,
        Ir1InstV::Output => pad + "OUT\n"@,
        Ir1InstV::Loop(b) => pad + "LOOP_BEGIN\n"@ + block_text(b, pad + "  "@) + pad
            + "LOOP_END\n"@,
    }
}

/// The BF1 lines of a block, each line indented by `pad`; a loop's body is
/// indented two spaces further.
pub open spec fn block_text(b: Seq<Ir1InstV>, pad: Seq<char>) -> Seq<char>
    decreases b,
{
    if b.len() == 0 {
        Seq::empty()
    } else {
        inst_text(b[0], pad) + block_text(b.subrange(1, b.len() as int), pad)
    }
}

/// The BF1 text of a program: the header line `BF1`, then its root block.
pub open spec fn bf1_text(p: Seq<Ir1InstV>) -> Seq<char> {
    "BF1\n"@ + block_text(p, Seq::empty())
}

proof fn lemma_block_text_push(b: Seq<Ir1InstV>, x: Ir1InstV, pad: Seq<char>)
    ensures
        block_text(b.push(x), pad) == block_text(b, pad) + inst_text(x, pad),
    decreases b.len(),
{
    if b.len() == 0 {
        assert(b.push(x).subrange(1, 1) =~= Seq::<Ir1InstV>::empty());
        assert(block_text(Seq::<Ir1InstV>::empty(), pad) == Seq::<char>::empty());
        assert(b.push(x)[0] == x);
        assert(b =~= Seq::<Ir1InstV>::empty());
        assert(block_text(b.push(x), pad) =~= block_text(b, pad) + inst_text(x, pad));
    } else {
        let t = b.subrange(1, b.len() as int);
        lemma_block_text_push(t, x, pad);
        assert(b.push(x).subrange(1, (b.len() + 1) as int) =~= t.push(x));
        assert(b.push(x)[0] == b[0]);
        assert(block_text(b.push(x), pad) =~= block_text(b, pad) + inst_text(x, pad));
    }
}

/// The instruction of a BF1 line other than `LOOP_BEGIN` and `LOOP_END`.
pub open spec fn parse_inst_spec(no: int, text: Seq<char>) -> Result<Ir1InstV, Ir1ErrorV> {
    let ws = words(text);
    let bad_inst = Ir1ErrorV::ParseInvalidInstruction { line: no as usize, content: text };
    let bad_operand = Ir1ErrorV::ParseInvalidOperand { line: no as usize, content: text };
    if ws.len() == 0 {
        Err(bad_inst)
    } else if ws[0] == "PTR"@ || ws[0] == "CELL"@ {
        if ws.len() != 2 {
            Err(bad_operand)
        } else {
            match parse_i64_spec(ws[1]) {
                Some(v) => if ws[0] == "PTR"@ {
                    Ok(Ir1InstV::PtrMove(v))
                } else {
                    Ok(Ir1InstV::CellAdd(v))
                },
                None => Err(bad_operand),
            }
        }
    } else if ws[0] == "IN"@ || ws[0] == "OUT"@ {
        if ws.len() != 1 {
            Err(bad_operand)
        } else if ws[0] == "IN"@ {
            Ok(Ir1InstV::Input)
        } else {
            Ok(Ir1InstV::Output)
        }
    } else {
        Err(bad_inst)
    }
}

/// The stack of open blocks after one more BF1 line: `LOOP_BEGIN` opens a
/// block, `LOOP_END` closes the innermost one into a loop of its parent, any
/// other line adds an instruction to the innermost block.
pub open spec fn bf1_step(stack: Seq<Seq<Ir1InstV>>, line: (int, Seq<char>)) -> Result<
    Seq<Seq<Ir1InstV>>,
    Ir1ErrorV,
> {
    let (no, text) = line;
    if text == "LOOP_END"@ {
        if stack.len() <= 1 {
            Err(Ir1ErrorV::ParseUnexpectedLoopEnd { line: no as usize })
        } else {
            let rest = stack.drop_last();
            Ok(rest.drop_last().push(rest.last().push(Ir1InstV::Loop(stack.last()))))
        }
    } else if text == "LOOP_BEGIN"@ {
        Ok(stack.push(Seq::empty()))
    } else {
        match parse_inst_spec(no, text) {
            Err(e) => Err(e),
            Ok(i) => Ok(stack.drop_last().push(stack.last().push(i))),
        }
    }
}

/// The stack of open blocks after the BF1 lines `lines`, or the first error.
pub open spec fn bf1_fold(lines: Seq<(int, Seq<char>)>) -> Result<Seq<Seq<Ir1InstV>>, Ir1ErrorV>
    decreases lines.len(),
{
    if lines.len() == 0 {
        Ok(seq![Seq::empty()])
    } else {
        match bf1_fold(lines.drop_last()) {
            Err(e) => Err(e),
            Ok(st) => bf1_step(st, lines.last()),
        }
    }
}

/// The program that the BF1 text `s` denotes, or the error that reading it
/// meets first.
pub open spec fn bf1_parse(s: Seq<char>) -> Result<Seq<Ir1InstV>, Ir1ErrorV> {
    let lines = meaningful_lines(s);
    if lines.len() == 0 {
        Err(Ir1ErrorV::ParseInvalidHeader { found: "<empty>"@ })
    } else if lines[0].1 != "BF1"@ {
        Err(Ir1ErrorV::ParseInvalidHeader { found: lines[0].1 })
    } else {
        match bf1_fold(lines.drop_first()) {
            Err(e) => Err(e),
            Ok(st) => if st.len() == 1 {
                Ok(st[0])
            } else {
                Err(Ir1ErrorV::ParseUnclosedLoop)
            },
        }
    }
}

pub open spec fn stack_view(st: Seq<Vec<Ir1Inst>>) -> Seq<Seq<Ir1InstV>> {
    st.map_values(|b: Vec<Ir1Inst>| block_view(b@))
}

proof fn lemma_bf1_fold_err_persists(lines: Seq<(int, Seq<char>)>, k: int)
    requires
        0 <= k <= lines.len(),
        bf1_fold(lines.take(k)) is Err,
    ensures
        bf1_fold(lines) == bf1_fold(lines.take(k)),
    decreases lines.len() - k,
{
    if k == lines.len() {
        assert(lines.take(k) =~= lines);
    } else {
        assert(lines.take(k + 1).drop_last() =~= lines.take(k));
        lemma_bf1_fold_err_persists(lines, k + 1);
    }
}

proof fn lemma_bf1_fold_nonempty(lines: Seq<(int, Seq<char>)>)
    ensures
        bf1_fold(lines) matches Ok(st) ==> st.len() >= 1,
    decreases lines.len(),
{
    if lines.len() > 0 {
        lemma_bf1_fold_nonempty(lines.drop_last());
    }
}

impl Ir1Program {
    fn emit_bf1_inst(inst: &Ir1Inst, pad: &Vec<char>, out: &mut Vec<char>)
        ensures
            final(out)@ == old(out)@ + inst_text(inst_view(*inst), pad@),
        decreases inst_size(*inst), 0nat,
    {
        match inst {
            Ir1Inst::PtrMove(v) => {
                push_chars(out, pad);
                push_str(out, "PTR ");
                push_i64(out, *v);
                push_str(out, "\n");
            },
            Ir1Inst::CellAdd(v) => {
                push_chars(out, pad);
                push_str(out, "CELL ");
                push_i64(out, *v);
                push_str(out, "\n");
            },
            Ir1Inst::Input => {
                push_chars(out, pad);
                push_str(out, "IN\n");
            },
            Ir1Inst::Output => {
                push_chars(out, pad);
                push_str(out, "OUT\n");
            },
            Ir1Inst::Loop(inner) => {
                push_chars(out, pad);
                push_str(out, "LOOP_BEGIN\n");
                let mut inner_pad: Vec<char> = Vec::new();
                push_chars(&mut inner_pad, pad);
                push_str(&mut inner_pad, "  ");
                Self::emit_bf1_block(inner, &inner_pad, out);
                push_chars(out, pad);
                push_str(out, "LOOP_END\n");
            },
        }
        assert(out@ =~= old(out)@ + inst_text(inst_view(*inst), pad@));
    }

    fn emit_bf1_block(block: &Ir1Block, pad: &Vec<char>, out: &mut Vec<char>)
        ensures
            final(out)@ == old(out)@ + block_text(block_view(block@), pad@),
        decreases block_size(block@), 1nat,
    {
        let n = block.len();
        let mut i: usize = 0;
        let ghost start = out@;
        assert(block_view(block@).take(0) =~= Seq::<Ir1InstV>::empty());
        assert(start + block_text(Seq::<Ir1InstV>::empty(), pad@) =~= start);
        while i < n
            invariant
                i <= n,
                n == block@.len(),
                out@ == start + block_text(block_view(block@).take(i as int), pad@),
            decreases n - i,
        {
            proof {
                lemma_block_size_elem(block@, i as int);
                lemma_block_text_push(block_view(block@).take(i as int), inst_view(block@[i as int]), pad@);
                assert(block_view(block@).take(i + 1) =~= block_view(block@).take(i as int).push(
                    inst_view(block@[i as int]),
                ));
            }
            Self::emit_bf1_inst(&block[i], pad, out);
            i = i + 1;
        }
        assert(block_view(block@).take(n as int) =~= block_view(block@));
    }

    /// The BF1 text of this program.
    pub fn to_bf1_string(&self) -> (r: String)
        ensures
            r@ == bf1_text(self@),
    {
        let mut out: Vec<char> = Vec::new();
        push_str(&mut out, "BF1\n");
        let pad: Vec<char> = Vec::new();
        Self::emit_bf1_block(&self.root, &pad, &mut out);
        assert(pad@ =~= Seq::<char>::empty());
        string_from_chars(&out)
    }

    /// The instruction of the BF1 line `line` (line number `line_no`).
    fn parse_bf1_inst(line_no: usize, line: &Vec<char>) -> (r: Result<Ir1Inst, Ir1Error>)
        ensures
            r matches Ok(i) ==> parse_inst_spec(line_no as int, line@) == Ok::<Ir1InstV, Ir1ErrorV>(
                inst_view(i),
            ),
            r matches Err(e) ==> parse_inst_spec(line_no as int, line@) == Err::<Ir1InstV, Ir1ErrorV>(
                e@,
            ),
            r matches Ok(i) ==> !(i is Loop),
    {
        let parts = split_words(line);
        let ghost ws = words(line@);
        assert(vecs_view(parts@) == ws);
        if parts.len() == 0 {
            return Err(Ir1Error::ParseInvalidInstruction {
                line: line_no,
                content: string_from_chars(line),
            });
        }
        assert(parts@[0]@ == ws[0]);
        let is_ptr = chars_eq_str(&parts[0], "PTR");
        let is_cell = chars_eq_str(&parts[0], "CELL");
        let is_in = chars_eq_str(&parts[0], "IN");
        let is_out = chars_eq_str(&parts[0], "OUT");
        if is_ptr || is_cell {
            if parts.len() != 2 {
                return Err(Ir1Error::ParseInvalidOperand {
                    line: line_no,
                    content: string_from_chars(line),
                });
            }
            assert(parts@[1]@ == ws[1]);
            match parse_i64(&parts[1]) {
                Some(v) => {
                    if is_ptr {
                        Ok(Ir1Inst::PtrMove(v))
                    } else {
                        Ok(Ir1Inst::CellAdd(v))
                    }
                },
                None => Err(Ir1Error::ParseInvalidOperand {
                    line: line_no,
                    content: string_from_chars(line),
                }),
            }
        } else if is_in || is_out {
            if parts.len() != 1 {
                return Err(Ir1Error::ParseInvalidOperand {
                    line: line_no,
                    content: string_from_chars(line),
                });
            }
            if is_in {
                Ok(Ir1Inst::Input)
            } else {
                Ok(Ir1Inst::Output)
            }
        } else {
            Err(Ir1Error::ParseInvalidInstruction {
                line: line_no,
                content: string_from_chars(line),
            })
        }
    }

    /// Reads the BF1 lines after the header into the root block, keeping a
    /// stack of the blocks of the loops that are open.
    fn parse_bf1_block(lines: &Vec<Line>) -> (r: Result<Ir1Block, Ir1Error>)
        requires
            lines@.len() >= 1,
        ensures
            ({
                let body = lines_view(lines@).drop_first();
                match bf1_fold(body) {
                    Err(e) => r matches Err(x) && x@ == e,
                    Ok(st) => if st.len() == 1 {
                        r matches Ok(b) && block_view(b@) == st[0]
                    } else {
                        r matches Err(x) && x@ == Ir1ErrorV::ParseUnclosedLoop
                    },
                }
            }),
    {
        let ghost all = lines_view(lines@);
        let ghost body = all.drop_first();
        let n = lines.len();
        let mut stack: Vec<Vec<Ir1Inst>> = Vec::new();
        stack.push(Vec::new());
        let mut idx: usize = 1;
        assert(body.take(0) =~= Seq::<(int, Seq<char>)>::empty());
        assert(stack_view(stack@) =~= seq![Seq::<Ir1InstV>::empty()]) by {
            assert(block_view(stack@[0]@) =~= Seq::<Ir1InstV>::empty());
        }
        while idx < n
            invariant
                1 <= idx <= n,
                n == lines@.len(),
                all == lines_view(lines@),
                body == all.drop_first(),
                bf1_fold(body.take(idx - 1)) == Ok::<Seq<Seq<Ir1InstV>>, Ir1ErrorV>(
                    stack_view(stack@),
                ),
                stack@.len() >= 1,
            decreases n - idx,
        {
            let line = &lines[idx];
            let ghost pre = body.take(idx - 1);
            let ghost st = stack_view(stack@);
            proof {
                assert(body.take(idx as int).drop_last() =~= pre);
                assert(body.take(idx as int).last() == all[idx as int]);
                assert(all[idx as int] == (line.no as int, line.text@));
            }
            if chars_eq_str(&line.text, "LOOP_END") {
                if stack.len() <= 1 {
                    proof {
                        lemma_bf1_fold_err_persists(body, idx as int);
                    }
                    return Err(Ir1Error::ParseUnexpectedLoopEnd { line: line.no });
                }
                let top = stack.pop().unwrap();
                let mut parent = stack.pop().unwrap();
                let ghost parent_before = parent@;
                let inst = Ir1Inst::Loop(top);
                proof {
                    lemma_block_view_push(parent@, inst);
                }
                parent.push(inst);
                stack.push(parent);
                assert(stack_view(stack@) =~= st.drop_last().drop_last().push(
                    st.drop_last().last().push(Ir1InstV::Loop(st.last())),
                ));
            } else if chars_eq_str(&line.text, "LOOP_BEGIN") {
                stack.push(Vec::new());
                assert(stack_view(stack@) =~= st.push(Seq::empty())) by {
                    assert(block_view(Seq::<Ir1Inst>::empty()) =~= Seq::<Ir1InstV>::empty());
                }
            } else {
                let parsed = Self::parse_bf1_inst(line.no, &line.text);
                let inst = match parsed {
                    Ok(i) => i,
                    Err(e) => {
                        proof {
                            lemma_bf1_fold_err_persists(body, idx as int);
                        }
                        return Err(e);
                    },
                };
                let mut top = stack.pop().unwrap();
                proof {
                    lemma_block_view_push(top@, inst);
                }
                top.push(inst);
                stack.push(top);
                assert(stack_view(stack@) =~= st.drop_last().push(st.last().push(inst_view(inst))));
            }
            idx = idx + 1;
        }
        assert(body.take(n - 1) =~= body);
        if stack.len() != 1 {
            return Err(Ir1Error::ParseUnclosedLoop);
        }
        let root = stack.pop().unwrap();
        Ok(root)
    }

    /// The program that the BF1 text `input` denotes.
    pub fn from_bf1_str(input: &str) -> (r: Result<Ir1Program, Ir1Error>)
        ensures
            match bf1_parse(input@) {
                Ok(p) => r matches Ok(q) && q@ == p,
                Err(e) => r matches Err(x) && x@ == e,
            },
    {
        let chars = chars_of(input);
        let lines = meaningful_lines_of(&chars);
        if lines.len() == 0 {
            let found = chars_of("<empty>");
            return Err(Ir1Error::ParseInvalidHeader { found: string_from_chars(&found) });
        }
        assert(lines_view(lines@)[0] == (lines@[0].no as int, lines@[0].text@));
        if !chars_eq_str(&lines[0].text, "BF1") {
            return Err(Ir1Error::ParseInvalidHeader { found: string_from_chars(&lines[0].text) });
        }
        let root = Self::parse_bf1_block(&lines)?;
        Ok(Ir1Program { root })
    }
}
} // verus!
