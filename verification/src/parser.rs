//! The parser: tokens to a tree of runs and loops.
use vstd::prelude::*;
use std::rc::Rc;

use crate::bferror::{parse_error_message, ParseError};
use crate::lexer::Token;
use crate::linked_list::List;
use crate::logging::{emitted_lines, loc_name, parse_error_descriptor, LogLevel, Logger};
use crate::text::{int_dec, push_str, push_usize, string_from_chars};

verus! {

/// A node of the tree: a run of non-bracket tokens, or a loop with its body.
#[derive(Debug, PartialEq, Eq, Clone)]
pub enum AstNode {
    Run(Vec<Token>),
    Loop(Rc<List<AstNode>>),
}

/// A program tree: its top-level nodes in order.
pub type Ast = List<AstNode>;

pub struct Parser {}

/// Abstract value of an [`AstNode`].
pub enum NodeV {
    Run(Seq<Token>),
    Loop(Seq<NodeV>),
}

pub open spec fn node_view(n: AstNode) -> NodeV
    decreases n,
{
    match n {
        AstNode::Run(ts) => NodeV::Run(ts@),
        AstNode::Loop(body) => NodeV::Loop(ast_view(*body)),
    }
}

/// The abstract value of a tree: the values of its nodes in order.
pub open spec fn ast_view(l: List<AstNode>) -> Seq<NodeV>
    decreases l,
{
    match l {
        List::Nil => Seq::empty(),
        List::Cons(h, t) => seq![node_view(h)] + ast_view(*t),
    }
}

pub open spec fn nodes_view(ns: Seq<AstNode>) -> Seq<NodeV> {
    Seq::new(ns.len(), |i: int| node_view(ns[i]))
}

pub open spec fn is_bracket(t: Token) -> bool {
    t == Token::JMPIN || t == Token::JMPOUT
}

/// How a token changes the nesting depth.
pub open spec fn delta(t: Token) -> int {
    if t == Token::JMPIN {
        1
    } else if t == Token::JMPOUT {
        -1
    } else {
        0
    }
}

/// The nesting depth after the tokens `t`: opened minus closed brackets.
pub open spec fn depth(t: Seq<Token>) -> int
    decreases t.len(),
{
    if t.len() == 0 {
        0
    } else {
        depth(t.drop_last()) + delta(t.last())
    }
}

/// Whether, starting at depth `base`, no prefix of `t` goes below depth 0.
pub open spec fn never_below(t: Seq<Token>, base: int) -> bool {
    forall|k: int| 0 <= k <= t.len() ==> base + #[trigger] depth(t.take(k)) >= 0
}

/// Whether every bracket of `t` is matched.
pub open spec fn balanced(t: Seq<Token>) -> bool {
    never_below(t, 0) && depth(t) == 0
}

/// Whether `p` is the position of the first `]` of `t` that closes nothing.
pub open spec fn first_unmatched_close(t: Seq<Token>, p: int) -> bool {
    &&& 0 <= p < t.len()
    &&& never_below(t.take(p), 0)
    &&& depth(t.take(p)) == 0
    &&& t[p] == Token::JMPOUT
}

/// Whether every `]` of `t` is matched but some `[` is not.
pub open spec fn unclosed(t: Seq<Token>) -> bool {
    never_below(t, 0) && depth(t) > 0
}

/// The tokens that a node stands for.
pub open spec fn flat_node(n: NodeV) -> Seq<Token>
    decreases n,
{
    match n {
        NodeV::Run(ts) => ts,
        NodeV::Loop(b) => seq![Token::JMPIN] + flat_nodes(b) + seq![Token::JMPOUT],
    }
}

/// The tokens that a sequence of nodes stands for.
pub open spec fn flat_nodes(ns: Seq<NodeV>) -> Seq<Token>
    decreases ns,
{
    if ns.len() == 0 {
        Seq::empty()
    } else {
        flat_nodes(ns.subrange(0, ns.len() - 1)) + flat_node(ns[ns.len() - 1])
    }
}

/// A node in canonical form: a run is non-empty and holds no bracket; a
/// loop's body is canonical.
pub open spec fn canonical_node(n: NodeV) -> bool
    decreases n,
{
    match n {
        NodeV::Run(ts) => ts.len() > 0 && forall|i: int| 0 <= i < ts.len() ==> !is_bracket(
            #[trigger] ts[i],
        ),
        NodeV::Loop(b) => canonical(b),
    }
}

/// Nodes in canonical form: each canonical, and no run directly follows a run.
pub open spec fn canonical(ns: Seq<NodeV>) -> bool
    decreases ns,
{
    if ns.len() == 0 {
        true
    } else {
        &&& canonical(ns.subrange(0, ns.len() - 1))
        &&& canonical_node(ns[ns.len() - 1])
        &&& !(ns.len() >= 2 && ns[ns.len() - 2] is Run && ns[ns.len() - 1] is Run)
    }
}

proof fn lemma_depth_concat(a: Seq<Token>, b: Seq<Token>)
    ensures
        depth(a + b) == depth(a) + depth(b),
    decreases b.len(),
{
    if b.len() == 0 {
        assert(a + b =~= a);
    } else {
        lemma_depth_concat(a, b.drop_last());
        assert((a + b).drop_last() =~= a + b.drop_last());
        assert((a + b).last() == b.last());
    }
}

proof fn lemma_never_below_concat(a: Seq<Token>, b: Seq<Token>, base: int)
    requires
        never_below(a, base),
        never_below(b, base + depth(a)),
    ensures
        never_below(a + b, base),
{
    assert forall|k: int| 0 <= k <= (a + b).len() implies base + #[trigger] depth((a + b).take(k))
        >= 0 by {
        if k <= a.len() {
            assert((a + b).take(k) =~= a.take(k));
        } else {
            assert((a + b).take(k) =~= a + b.take(k - a.len()));
            lemma_depth_concat(a, b.take(k - a.len()));
            assert(base + depth(a) + depth(b.take(k - a.len())) >= 0);
        }
    }
}

proof fn lemma_single(t: Token)
    ensures
        depth(seq![t]) == delta(t),
        never_below(seq![t], 0) <==> t != Token::JMPOUT,
{
    assert(seq![t].drop_last() =~= Seq::<Token>::empty());
    assert(depth(Seq::<Token>::empty()) == 0);
    assert(seq![t].last() == t);
    assert(depth(seq![t]) == delta(t));
    assert(seq![t].take(0) =~= Seq::<Token>::empty());
    assert(seq![t].take(1) =~= seq![t]);
    if t == Token::JMPOUT {
        assert(0 + depth(seq![t].take(1)) < 0);
    }
}

proof fn lemma_flat_push(ns: Seq<NodeV>, n: NodeV)
    ensures
        flat_nodes(ns.push(n)) == flat_nodes(ns) + flat_node(n),
        canonical(ns.push(n)) == (canonical(ns) && canonical_node(n) && !(ns.len() >= 1
            && ns[ns.len() - 1] is Run && n is Run)),
{
    assert(ns.push(n).subrange(0, ns.len() as int) =~= ns);
}

proof fn lemma_nodes_view_push(ns: Seq<AstNode>, n: AstNode)
    ensures
        nodes_view(ns.push(n)) == nodes_view(ns).push(node_view(n)),
{
    assert(nodes_view(ns.push(n)) =~= nodes_view(ns).push(node_view(n)));
}

/// A tree holding `nodes` in order.
fn list_from_nodes(nodes: Vec<AstNode>) -> (r: Ast)
    ensures
        ast_view(r) == nodes_view(nodes@),
{
    let mut nodes = nodes;
    let ghost all = nodes@;
    let mut list: Ast = List::Nil;
    assert(all.skip(all.len() as int) =~= Seq::<AstNode>::empty());
    assert(nodes_view(Seq::<AstNode>::empty()) =~= Seq::<NodeV>::empty());
    loop
        invariant
            nodes@ == all.take(nodes@.len() as int),
            nodes@.len() <= all.len(),
            ast_view(list) == nodes_view(all.skip(nodes@.len() as int)),
        ensures
            ast_view(list) == nodes_view(all),
        decreases nodes@.len(),
    {
        let ghost before = nodes@.len();
        match nodes.pop() {
            Some(node) => {
                let ghost tail = ast_view(list);
                list = List::Cons(node, Rc::new(list));
                assert(node == all[before - 1]);
                assert(all.skip(before - 1) =~= seq![node] + all.skip(before as int));
                assert(nodes_view(all.skip(before - 1)) =~= seq![node_view(node)] + nodes_view(
                    all.skip(before as int),
                ));
                assert(nodes@ =~= all.take(nodes@.len() as int));
            },
            None => {
                assert(all.skip(0) =~= all);
                break;
            },
        }
    }
    list
}

// ---------------------------------------------------------------------------
// The parser's trace
// ---------------------------------------------------------------------------

/// The start of the run of tokens that ends at index `i` of `t`: just after
/// the last bracket before `i`, or 0.
pub open spec fn run_start(t: Seq<Token>, i: int) -> int
    decreases i,
{
    if i <= 0 {
        0
    } else if is_bracket(t[i - 1]) {
        i
    } else {
        run_start(t, i - 1)
    }
}

/// The parser's trace lines at token `i` of `t`, on a logger of threshold
/// `thr`: entering a loop at `[`, leaving one at `]`, and the end of a run of
/// other tokens.
#[verifier::opaque]
pub open spec fn parse_token_log(thr: LogLevel, t: Seq<Token>, i: int) -> Seq<Seq<char>> {
    if t[i] == Token::JMPIN {
        emitted_lines(thr, LogLevel::Verbose, "PARSER"@, None, "V_PARSE_LOOP_BEGIN"@, "token_pos="@ + int_dec(i))
    } else if t[i] == Token::JMPOUT {
        emitted_lines(thr, LogLevel::Verbose, "PARSER"@, None, "V_PARSE_LOOP_END"@, "token_pos="@ + int_dec(i))
    } else if i + 1 == t.len() || is_bracket(t[i + 1]) {
        emitted_lines(
            thr,
            LogLevel::Debug,
            "PARSER"@,
            None,
            "D_PARSE_RUN_SEGMENT"@,
            "segment_len="@ + int_dec(i + 1 - run_start(t, i)) + " ends_at="@ + int_dec(i + 1),
        )
    } else {
        Seq::empty()
    }
}

/// The parser's trace lines for tokens `a` up to `b` of `t`.
#[verifier::opaque]
pub open spec fn parse_trace(thr: LogLevel, t: Seq<Token>, a: int, b: int) -> Seq<Seq<char>>
    decreases b - a,
{
    if b <= a {
        Seq::empty()
    } else {
        parse_trace(thr, t, a, b - 1) + parse_token_log(thr, t, b - 1)
    }
}

/// The lines that reporting the parse error `e` queues.
pub open spec fn parse_error_lines(thr: LogLevel, e: ParseError) -> Seq<Seq<char>> {
    emitted_lines(
        thr,
        parse_error_descriptor(e).level,
        loc_name(parse_error_descriptor(e).loc),
        Some(parse_error_descriptor(e).code),
        parse_error_descriptor(e).readable_code@,
        parse_error_message(e),
    )
}

/// The lines that parsing `t` with result `r` queues on a logger of
/// threshold `thr`: a start record, the trace up to where parsing stopped,
/// and the error or a summary.
pub open spec fn parse_log(thr: LogLevel, t: Seq<Token>, r: Result<Ast, ParseError>) -> Seq<Seq<char>> {
    emitted_lines(thr, LogLevel::Info, "PARSER"@, None, "I_PARSE_START"@, "tokens="@ + int_dec(t.len() as int))
        + match r {
        Ok(_) => parse_trace(thr, t, 0, t.len() as int) + emitted_lines(
            thr,
            LogLevel::Debug,
            "PARSER"@,
            None,
            "D_PARSE_DONE"@,
            "consumed_tokens="@ + int_dec(t.len() as int),
        ),
        Err(ParseError::UnexpectedRightBracket { pos }) => parse_trace(thr, t, 0, pos + 1)
            + parse_error_lines(thr, ParseError::UnexpectedRightBracket { pos }),
        Err(ParseError::UnclosedLeftBracket) => parse_trace(thr, t, 0, t.len() as int)
            + parse_error_lines(thr, ParseError::UnclosedLeftBracket),
    }
}

/// Whether `log` is `log0` followed by the parser's trace for tokens `a` up
/// to `b` of `t`.
#[verifier::opaque]
spec fn traced(log: Seq<Seq<char>>, log0: Seq<Seq<char>>, thr: LogLevel, t: Seq<Token>, a: int, b: int) -> bool {
    log == log0 + parse_trace(thr, t, a, b)
}

proof fn lemma_traced_start(log0: Seq<Seq<char>>, thr: LogLevel, t: Seq<Token>, a: int)
    ensures
        traced(log0, log0, thr, t, a, a),
{
    reveal(traced);
    lemma_parse_trace_step(thr, t, a, a);
    lemma_concat_empty(log0);
}

proof fn lemma_traced_token(
    lg: Seq<Seq<char>>,
    after: Seq<Seq<char>>,
    log0: Seq<Seq<char>>,
    thr: LogLevel,
    t: Seq<Token>,
    a: int,
    b: int,
)
    requires
        a <= b,
        traced(lg, log0, thr, t, a, b),
        after == lg + parse_token_log(thr, t, b),
    ensures
        traced(after, log0, thr, t, a, b + 1),
{
    reveal(traced);
    lemma_parse_trace_step(thr, t, a, b);
    lemma_concat_assoc(log0, parse_trace(thr, t, a, b), parse_token_log(thr, t, b));
}

proof fn lemma_traced_compose(
    l1: Seq<Seq<char>>,
    l2: Seq<Seq<char>>,
    l3: Seq<Seq<char>>,
    thr: LogLevel,
    t: Seq<Token>,
    a: int,
    b: int,
    c: int,
)
    requires
        a <= b <= c,
        traced(l2, l1, thr, t, a, b),
        traced(l3, l2, thr, t, b, c),
    ensures
        traced(l3, l1, thr, t, a, c),
{
    reveal(traced);
    lemma_parse_trace_split(thr, t, a, b, c);
    lemma_concat_assoc(l1, parse_trace(thr, t, a, b), parse_trace(thr, t, b, c));
}

proof fn lemma_traced_run(
    lg: Seq<Seq<char>>,
    after: Seq<Seq<char>>,
    log0: Seq<Seq<char>>,
    thr: LogLevel,
    t: Seq<Token>,
    p0: int,
    a: int,
    b: int,
    ms: Seq<char>,
)
    requires
        0 <= p0 <= a < b <= t.len(),
        a == 0 || is_bracket(t[a - 1]),
        forall|k: int| a <= k < b ==> !is_bracket(#[trigger] t[k]),
        b == t.len() || is_bracket(t[b]),
        traced(lg, log0, thr, t, p0, a),
        ms == "segment_len="@ + int_dec(b - a) + " ends_at="@ + int_dec(b),
        after == lg + emitted_lines(thr, LogLevel::Debug, "PARSER"@, None, "D_PARSE_RUN_SEGMENT"@, ms),
    ensures
        traced(after, log0, thr, t, p0, b),
{
    reveal(traced);
    lemma_run_logged(thr, t, log0, p0, a, b, lg, after, ms);
}

proof fn lemma_concat_empty<A>(a: Seq<A>)
    ensures
        a + Seq::<A>::empty() == a,
{
    assert(a + Seq::<A>::empty() =~= a);
}

proof fn lemma_concat_assoc<A>(a: Seq<A>, b: Seq<A>, c: Seq<A>)
    ensures
        a + b + c == a + (b + c),
{
    assert(a + b + c =~= a + (b + c));
}

/// The log after reporting a run is the trace up to its end.
proof fn lemma_run_logged(
    thr: LogLevel,
    t: Seq<Token>,
    log0: Seq<Seq<char>>,
    p0: int,
    a: int,
    b: int,
    lg: Seq<Seq<char>>,
    after: Seq<Seq<char>>,
    ms: Seq<char>,
)
    requires
        0 <= p0 <= a < b <= t.len(),
        a == 0 || is_bracket(t[a - 1]),
        forall|k: int| a <= k < b ==> !is_bracket(#[trigger] t[k]),
        b == t.len() || is_bracket(t[b]),
        lg == log0 + parse_trace(thr, t, p0, a),
        ms == "segment_len="@ + int_dec(b - a) + " ends_at="@ + int_dec(b),
        after == lg + emitted_lines(thr, LogLevel::Debug, "PARSER"@, None, "D_PARSE_RUN_SEGMENT"@, ms),
    ensures
        after == log0 + parse_trace(thr, t, p0, b),
{
    lemma_parse_trace_run(thr, t, p0, a, b);
    lemma_concat_assoc(
        log0,
        parse_trace(thr, t, p0, a),
        emitted_lines(thr, LogLevel::Debug, "PARSER"@, None, "D_PARSE_RUN_SEGMENT"@, ms),
    );
}

/// The trace line of a bracket.
proof fn lemma_token_log_bracket(thr: LogLevel, t: Seq<Token>, i: int)
    requires
        0 <= i < t.len(),
        is_bracket(t[i]),
    ensures
        parse_token_log(thr, t, i) == emitted_lines(
            thr,
            LogLevel::Verbose,
            "PARSER"@,
            None,
            if t[i] == Token::JMPIN {
                "V_PARSE_LOOP_BEGIN"@
            } else {
                "V_PARSE_LOOP_END"@
            },
            "token_pos="@ + int_dec(i),
        ),
{
    reveal(parse_token_log);
}

proof fn lemma_parse_trace_step(thr: LogLevel, t: Seq<Token>, a: int, b: int)
    requires
        a <= b,
    ensures
        parse_trace(thr, t, a, b + 1) == parse_trace(thr, t, a, b) + parse_token_log(thr, t, b),
        parse_trace(thr, t, a, a) == Seq::<Seq<char>>::empty(),
{
    reveal(parse_trace);
}

proof fn lemma_parse_trace_split(thr: LogLevel, t: Seq<Token>, a: int, b: int, c: int)
    requires
        a <= b <= c,
    ensures
        parse_trace(thr, t, a, c) == parse_trace(thr, t, a, b) + parse_trace(thr, t, b, c),
    decreases c - b,
{
    reveal(parse_trace);
    if b == c {
        assert(parse_trace(thr, t, a, b) + parse_trace(thr, t, b, c) =~= parse_trace(thr, t, a, b));
    } else {
        lemma_parse_trace_split(thr, t, a, b, c - 1);
        assert(parse_trace(thr, t, a, c) =~= parse_trace(thr, t, a, b) + parse_trace(thr, t, b, c));
    }
}

proof fn lemma_run_start(t: Seq<Token>, a: int, i: int)
    requires
        0 <= a <= i < t.len(),
        a == 0 || is_bracket(t[a - 1]),
        forall|k: int| a <= k <= i ==> !is_bracket(#[trigger] t[k]),
    ensures
        run_start(t, i) == a,
    decreases i - a,
{
    if i > a {
        lemma_run_start(t, a, i - 1);
    }
}

/// The trace of a maximal run of non-bracket tokens is its one summary line.
proof fn lemma_parse_trace_run(thr: LogLevel, t: Seq<Token>, c: int, a: int, b: int)
    requires
        0 <= c <= a < b <= t.len(),
        a == 0 || is_bracket(t[a - 1]),
        forall|k: int| a <= k < b ==> !is_bracket(#[trigger] t[k]),
        b == t.len() || is_bracket(t[b]),
    ensures
        parse_trace(thr, t, c, b) == parse_trace(thr, t, c, a) + emitted_lines(
            thr,
            LogLevel::Debug,
            "PARSER"@,
            None,
            "D_PARSE_RUN_SEGMENT"@,
            "segment_len="@ + int_dec(b - a) + " ends_at="@ + int_dec(b),
        ),
{
    assert forall|j: int| a <= j <= b - 1 implies parse_trace(thr, t, c, j) == parse_trace(thr, t, c, a) by {
        lemma_trace_quiet(thr, t, c, a, j, b);
    }
    lemma_run_start(t, a, b - 1);
    reveal(parse_token_log);
    reveal(parse_trace);
    assert(!is_bracket(t[b - 1]));
    assert(parse_trace(thr, t, c, b - 1) == parse_trace(thr, t, c, a));
    assert(parse_token_log(thr, t, b - 1) == emitted_lines(
        thr,
        LogLevel::Debug,
        "PARSER"@,
        None,
        "D_PARSE_RUN_SEGMENT"@,
        "segment_len="@ + int_dec(b - a) + " ends_at="@ + int_dec(b),
    ));
}

proof fn lemma_trace_quiet(thr: LogLevel, t: Seq<Token>, c: int, a: int, j: int, b: int)
    requires
        0 <= c <= a <= j <= b - 1,
        b <= t.len(),
        forall|k: int| a <= k < b ==> !is_bracket(#[trigger] t[k]),
    ensures
        parse_trace(thr, t, c, j) == parse_trace(thr, t, c, a),
    decreases j - a,
{
    if j > a {
        lemma_trace_quiet(thr, t, c, a, j - 1, b);
        reveal(parse_token_log);
        reveal(parse_trace);
        assert(!is_bracket(t[j - 1]));
        assert(!is_bracket(t[j]));
        assert(parse_token_log(thr, t, j - 1) =~= Seq::<Seq<char>>::empty());
        assert(parse_trace(thr, t, c, j) =~= parse_trace(thr, t, c, j - 1));
    }
}

/// The parse of the block that begins at `*pos`: the nodes up to the `]` that
/// closes the block (not consumed) or the end of the tokens.
#[verifier::rlimit(100)]
fn parse_block(pos: &mut usize, tokens: &[Token], logger: &mut Logger) -> (r: Result<
    Ast,
    ParseError,
>)
    requires
        *old(pos) <= tokens@.len(),
        *old(pos) == 0 || tokens@[*old(pos) - 1] == Token::JMPIN,
    ensures
        final(logger).spec_threshold() == old(logger).spec_threshold(),
        r is Ok && *final(pos) < tokens@.len() ==> traced(
            final(logger).pending(),
            old(logger).pending(),
            old(logger).spec_threshold(),
            tokens@,
            *old(pos) as int,
            *final(pos) + 1,
        ),
        r is Ok && *final(pos) >= tokens@.len() ==> traced(
            final(logger).pending(),
            old(logger).pending(),
            old(logger).spec_threshold(),
            tokens@,
            *old(pos) as int,
            tokens@.len() as int,
        ),
        r is Err ==> traced(
            final(logger).pending(),
            old(logger).pending(),
            old(logger).spec_threshold(),
            tokens@,
            *old(pos) as int,
            tokens@.len() as int,
        ),
        r matches Ok(ast) ==> {
            let seg = tokens@.subrange(*old(pos) as int, *final(pos) as int);
            &&& *old(pos) <= *final(pos) <= tokens@.len()
            &&& balanced(seg)
            &&& flat_nodes(ast_view(ast)) == seg
            &&& canonical(ast_view(ast))
            &&& (*final(pos) == tokens@.len() || tokens@[*final(pos) as int] == Token::JMPOUT)
        },
        r is Err ==> r == Err::<Ast, ParseError>(ParseError::UnclosedLeftBracket) && unclosed(
            tokens@.skip(*old(pos) as int),
        ),
    decreases tokens@.len() - *old(pos),
{
    let ghost p0 = *pos as int;
    let ghost t = tokens@;
    let ghost log0 = logger.pending();
    let ghost thr = logger.spec_threshold();
    let n = tokens.len();
    proof {
        lemma_traced_start(log0, thr, tokens@, p0);
    }
    let mut nodes: Vec<AstNode> = Vec::new();
    assert(t.subrange(p0, p0) =~= Seq::<Token>::empty());
    assert(nodes_view(nodes@) =~= Seq::<NodeV>::empty());
    proof {
        assert(never_below(Seq::<Token>::empty(), 0)) by {
            assert forall|k: int| 0 <= k <= 0 implies 0 + #[trigger] depth(
                Seq::<Token>::empty().take(k),
            ) >= 0 by {
                assert(Seq::<Token>::empty().take(k) =~= Seq::<Token>::empty());
            }
        }
    }
    loop
        invariant_except_break
            traced(logger.pending(), log0, thr, t, p0, *pos as int),
        invariant
            n == t.len(),
            t == tokens@,
            p0 == *old(pos),
            p0 <= *pos <= n,
            balanced(t.subrange(p0, *pos as int)),
            flat_nodes(nodes_view(nodes@)) == t.subrange(p0, *pos as int),
            canonical(nodes_view(nodes@)),
            nodes@.len() > 0 && nodes_view(nodes@).last() is Run ==> (*pos == n || is_bracket(
                t[*pos as int],
            )),
            logger.spec_threshold() == old(logger).spec_threshold(),
            thr == old(logger).spec_threshold(),
            log0 == old(logger).pending(),
            p0 == 0 || t[p0 - 1] == Token::JMPIN,
            *pos == n || is_bracket(t[*pos as int]) || *pos == 0 || is_bracket(t[*pos - 1]),
        ensures
            p0 <= *pos <= n,
            balanced(t.subrange(p0, *pos as int)),
            flat_nodes(nodes_view(nodes@)) == t.subrange(p0, *pos as int),
            canonical(nodes_view(nodes@)),
            *pos == n || t[*pos as int] == Token::JMPOUT,
            logger.spec_threshold() == old(logger).spec_threshold(),
            *pos < n ==> traced(logger.pending(), log0, thr, t, p0, *pos + 1),
            *pos >= n ==> traced(logger.pending(), log0, thr, t, p0, n as int),
        decreases n - *pos,
    {
        if *pos >= n {
            break;
        }
        let ghost seg = t.subrange(p0, *pos as int);
        let tk = tokens[*pos];
        match tk {
            Token::JMPIN => {
                let left_bracket_pos = *pos;
                let mut m: Vec<char> = Vec::new();
                push_str(&mut m, "token_pos=");
                push_usize(&mut m, *pos);
                let ms = string_from_chars(&m);
                let ghost lg = logger.pending();
                assert(ms@ =~= "token_pos="@ + int_dec(*pos as int));
                logger.emit_raw(LogLevel::Verbose, "PARSER", "V_PARSE_LOOP_BEGIN", ms.as_str());
                proof {
                    lemma_token_log_bracket(thr, t, *pos as int);
                    lemma_traced_token(lg, logger.pending(), log0, thr, t, p0, *pos as int);
                }
                *pos = *pos + 1;
                let ghost inner_start = *pos as int;
                let ghost lg2 = logger.pending();
                let inner = parse_block(pos, tokens, logger);
                match inner {
                    Err(e) => {
                        proof {
                            lemma_traced_compose(log0, lg2, logger.pending(), thr, t, p0, inner_start, n as int);
                        }
                        proof {
                            let rest = t.skip(inner_start);
                            lemma_single(Token::JMPIN);
                            lemma_never_below_concat(seq![Token::JMPIN], rest, 0);
                            lemma_depth_concat(seq![Token::JMPIN], rest);
                            lemma_never_below_concat(seg, seq![Token::JMPIN] + rest, 0);
                            lemma_depth_concat(seg, seq![Token::JMPIN] + rest);
                            assert(t.skip(p0) =~= seg + (seq![Token::JMPIN] + rest));
                        }
                        return Err(e);
                    },
                    Ok(inner_list) => {
                        if *pos >= n || tokens[*pos] != Token::JMPOUT {
                            proof {
                                lemma_traced_compose(log0, lg2, logger.pending(), thr, t, p0, inner_start, n as int);
                                let rest = t.skip(inner_start);
                                assert(*pos == n);
                                assert(rest =~= t.subrange(inner_start, *pos as int));
                                lemma_single(Token::JMPIN);
                                lemma_never_below_concat(seq![Token::JMPIN], rest, 0);
                                lemma_depth_concat(seq![Token::JMPIN], rest);
                                lemma_never_below_concat(seg, seq![Token::JMPIN] + rest, 0);
                                lemma_depth_concat(seg, seq![Token::JMPIN] + rest);
                                assert(t.skip(p0) =~= seg + (seq![Token::JMPIN] + rest));
                            }
                            return Err(ParseError::UnclosedLeftBracket);
                        }
                        let ghost body = t.subrange(inner_start, *pos as int);
                        proof {
                            lemma_traced_compose(log0, lg2, logger.pending(), thr, t, p0, inner_start, *pos + 1);
                        }
                        *pos = *pos + 1;
                        let ghost loop_tokens = seq![Token::JMPIN] + body + seq![Token::JMPOUT];
                        proof {
                            lemma_single(Token::JMPIN);
                            lemma_single(Token::JMPOUT);
                            lemma_never_below_concat(seq![Token::JMPIN], body, 0);
                            lemma_depth_concat(seq![Token::JMPIN], body);
                            assert(never_below(seq![Token::JMPOUT], 1)) by {
                                assert forall|k: int| 0 <= k <= 1 implies 1 + #[trigger] depth(
                                    seq![Token::JMPOUT].take(k),
                                ) >= 0 by {
                                    if k == 0 {
                                        assert(seq![Token::JMPOUT].take(k) =~= Seq::<Token>::empty());
                                    } else {
                                        assert(seq![Token::JMPOUT].take(k) =~= seq![Token::JMPOUT]);
                                    }
                                }
                            }
                            lemma_never_below_concat(
                                seq![Token::JMPIN] + body,
                                seq![Token::JMPOUT],
                                0,
                            );
                            lemma_depth_concat(seq![Token::JMPIN] + body, seq![Token::JMPOUT]);
                            lemma_never_below_concat(seg, loop_tokens, 0);
                            lemma_depth_concat(seg, loop_tokens);
                            assert(t.subrange(p0, *pos as int) =~= seg + loop_tokens);
                            assert(t.subrange(p0, left_bracket_pos as int) == seg);
                        }
                        let ghost old_nodes = nodes@;
                        let node = AstNode::Loop(Rc::new(inner_list));
                        nodes.push(node);
                        proof {
                            lemma_nodes_view_push(old_nodes, node);
                            lemma_flat_push(nodes_view(old_nodes), node_view(node));
                        }
                    },
                }
            },
            Token::JMPOUT => {
                let mut m: Vec<char> = Vec::new();
                push_str(&mut m, "token_pos=");
                push_usize(&mut m, *pos);
                let ms = string_from_chars(&m);
                assert(ms@ =~= "token_pos="@ + int_dec(*pos as int));
                let ghost lg = logger.pending();
                logger.emit_raw(LogLevel::Verbose, "PARSER", "V_PARSE_LOOP_END", ms.as_str());
                proof {
                    lemma_token_log_bracket(thr, t, *pos as int);
                    lemma_traced_token(lg, logger.pending(), log0, thr, t, p0, *pos as int);
                }
                break;
            },
            _ => {
                let run_start = *pos;
                let mut run_tokens: Vec<Token> = Vec::new();
                while *pos < n && tokens[*pos] != Token::JMPIN && tokens[*pos] != Token::JMPOUT
                    invariant
                        n == t.len(),
                        t == tokens@,
                        run_start <= *pos <= n,
                        run_tokens@ == t.subrange(run_start as int, *pos as int),
                        forall|i: int| 0 <= i < run_tokens@.len() ==> !is_bracket(
                            #[trigger] run_tokens@[i],
                        ),
                        never_below(run_tokens@, 0),
                        depth(run_tokens@) == 0,
                    decreases n - *pos,
                {
                    let x = tokens[*pos];
                    let ghost before = run_tokens@;
                    run_tokens.push(x);
                    *pos = *pos + 1;
                    assert(run_tokens@ =~= t.subrange(run_start as int, *pos as int));
                    proof {
                        lemma_single(x);
                        lemma_never_below_concat(before, seq![x], 0);
                        lemma_depth_concat(before, seq![x]);
                        assert(before + seq![x] =~= run_tokens@);
                    }
                }
                if run_tokens.len() > 0 {
                    let mut m: Vec<char> = Vec::new();
                    push_str(&mut m, "segment_len=");
                    push_usize(&mut m, run_tokens.len());
                    push_str(&mut m, " ends_at=");
                    push_usize(&mut m, *pos);
                    let ms = string_from_chars(&m);
                    assert(ms@ =~= "segment_len="@ + int_dec(*pos - run_start) + " ends_at="@ + int_dec(
                        *pos as int,
                    ));
                    let ghost lg = logger.pending();
                    logger.emit_raw(LogLevel::Debug, "PARSER", "D_PARSE_RUN_SEGMENT", ms.as_str());
                    proof {
                        assert forall|k: int| run_start <= k < *pos implies !is_bracket(#[trigger] t[k]) by {
                            assert(t[k] == run_tokens@[k - run_start]);
                        }
                        lemma_traced_run(lg, logger.pending(), log0, thr, t, p0, run_start as int, *pos as int, ms@);
                    }
                    let ghost run = run_tokens@;
                    assert(seg == t.subrange(p0, run_start as int));
                    assert(run == t.subrange(run_start as int, *pos as int));
                    proof {
                        lemma_never_below_concat(seg, run, 0);
                        lemma_depth_concat(seg, run);
                        assert(t.subrange(p0, *pos as int) =~= seg + run);
                    }
                    let ghost old_nodes = nodes@;
                    let node = AstNode::Run(run_tokens);
                    nodes.push(node);
                    proof {
                        lemma_nodes_view_push(old_nodes, node);
                        lemma_flat_push(nodes_view(old_nodes), node_view(node));
                    }
                }
            },
        }
    }
    Ok(list_from_nodes(nodes))
}

impl Parser {
    /// The tree of `tkstream`, if its brackets match.
    pub fn parse(tkstream: &[Token]) -> (r: Result<Ast, ParseError>)
        ensures
            r is Ok <==> balanced(tkstream@),
            r matches Ok(ast) ==> flat_nodes(ast_view(ast)) == tkstream@ && canonical(
                ast_view(ast),
            ),
            r matches Err(ParseError::UnexpectedRightBracket { pos }) ==> first_unmatched_close(
                tkstream@,
                pos as int,
            ),
            r == Err::<Ast, ParseError>(ParseError::UnclosedLeftBracket) <==> unclosed(tkstream@),
    {
        Self::parse_with_logger(tkstream, None)
    }

    /// The tree of `tkstream`, if its brackets match; progress records and the
    /// error, if any, are queued on `logger`.
    pub fn parse_with_logger(tkstream: &[Token], logger: Option<&mut Logger>) -> (r: Result<
        Ast,
        ParseError,
    >)
        ensures
            r is Ok <==> balanced(tkstream@),
            r matches Ok(ast) ==> flat_nodes(ast_view(ast)) == tkstream@ && canonical(
                ast_view(ast),
            ),
            r matches Err(ParseError::UnexpectedRightBracket { pos }) ==> first_unmatched_close(
                tkstream@,
                pos as int,
            ),
            r == Err::<Ast, ParseError>(ParseError::UnclosedLeftBracket) <==> unclosed(tkstream@),
            logger matches Some(l) ==> {
                &&& final(l).spec_threshold() == l.spec_threshold()
                &&& final(l).pending() == l.pending() + parse_log(l.spec_threshold(), tkstream@, r)
            },
    {
        let mut sink = Logger::new(LogLevel::Panic);
        let log: &mut Logger = match logger {
            Some(l) => l,
            None => &mut sink,
        };
        let ghost log0 = log.pending();
        let ghost thr = log.spec_threshold();
        let ghost t = tkstream@;
        let mut m: Vec<char> = Vec::new();
        push_str(&mut m, "tokens=");
        push_usize(&mut m, tkstream.len());
        let ms = string_from_chars(&m);
        assert(ms@ =~= "tokens="@ + int_dec(t.len() as int));
        log.emit_raw(LogLevel::Info, "PARSER", "I_PARSE_START", ms.as_str());
        let ghost start = emitted_lines(thr, LogLevel::Info, "PARSER"@, None, "I_PARSE_START"@, "tokens="@ + int_dec(t.len() as int));
        let ghost log1 = log.pending();
        let mut pos: usize = 0;
        let res = parse_block(&mut pos, tkstream, log);
        let ghost log2 = log.pending();
        proof {
            assert(t.skip(0) =~= t);
            reveal(traced);
        }
        let ast = match res {
            Ok(ast) => ast,
            Err(err) => {
                log.emit_error(&err);
                proof {
                    lemma_unclosed_excludes(t);
                    assert(log.pending() =~= log0 + parse_log(thr, t, Err(err)));
                }
                return Err(err);
            },
        };
        if pos < tkstream.len() {
            let err = ParseError::UnexpectedRightBracket { pos };
            log.emit_error(&err);
            proof {
                assert(t.subrange(0, pos as int) =~= t.take(pos as int));
                lemma_first_unmatched_excludes(t, pos as int);
                assert(log.pending() =~= log0 + parse_log(thr, t, Err(err)));
            }
            return Err(err);
        }
        let mut m2: Vec<char> = Vec::new();
        push_str(&mut m2, "consumed_tokens=");
        push_usize(&mut m2, pos);
        let ms2 = string_from_chars(&m2);
        assert(ms2@ =~= "consumed_tokens="@ + int_dec(t.len() as int));
        log.emit_raw(LogLevel::Debug, "PARSER", "D_PARSE_DONE", ms2.as_str());
        proof {
            assert(t.subrange(0, pos as int) =~= t);
            lemma_balanced_excludes(t);
            assert(log.pending() =~= log0 + parse_log(thr, t, Ok::<Ast, ParseError>(ast)));
        }
        Ok(ast)
    }
}

proof fn lemma_unclosed_excludes(t: Seq<Token>)
    requires
        unclosed(t),
    ensures
        !balanced(t),
        forall|p: int| !first_unmatched_close(t, p),
{
    assert forall|p: int| !first_unmatched_close(t, p) by {
        if first_unmatched_close(t, p) {
            assert(t.take(p + 1).drop_last() =~= t.take(p));
            assert(t.take(p + 1).last() == t[p]);
            assert(0 + depth(t.take(p + 1)) >= 0);
        }
    }
}

proof fn lemma_balanced_excludes(t: Seq<Token>)
    requires
        balanced(t),
    ensures
        !unclosed(t),
        forall|p: int| !first_unmatched_close(t, p),
{
    assert forall|p: int| !first_unmatched_close(t, p) by {
        if first_unmatched_close(t, p) {
            assert(t.take(p + 1).drop_last() =~= t.take(p));
            assert(t.take(p + 1).last() == t[p]);
            assert(0 + depth(t.take(p + 1)) >= 0);
        }
    }
}

proof fn lemma_first_unmatched_excludes(t: Seq<Token>, p: int)
    requires
        0 <= p < t.len(),
        balanced(t.take(p)),
        t[p] == Token::JMPOUT,
    ensures
        first_unmatched_close(t, p),
        !balanced(t),
        !unclosed(t),
{
    assert(t.take(p + 1).drop_last() =~= t.take(p));
    assert(t.take(p + 1).last() == t[p]);
    assert(0 + depth(t.take(p + 1)) < 0);
    assert(t.take(p + 1) == t.take(p + 1));
    assert(t.take(p + 1).len() == p + 1);
}

} // verus!
