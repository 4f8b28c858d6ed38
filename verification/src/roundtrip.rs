//! Reading back what the writers write: the BF1 text of any IR1 program, and
//! the BF2 text of any IR2 program that the BF2 format can carry, parse back
//! to the program.
use vstd::prelude::*;

use crate::bferror::{Ir1ErrorV, Ir2ErrorV};
use crate::ir1::{bf1_fold, bf1_parse, bf1_step, bf1_text, block_text, inst_text, parse_inst_spec, Ir1InstV};
use crate::ir2::{
    bf2_fold, bf2_finish, bf2_parse, bf2_step, bf2_text, block2_text, blocks2_text, func_step,
    func_text, funcs_text, has_block, has_prefix, insts_text, inst2_text, parse_block_header_spec,
    parse_func_header_spec, parse_inst2_spec, parse_term_spec, term_text, BlockV, Bf2State, FuncV,
    Ir2Inst, Ir2Terminator,
};
use crate::text::{
    lemma_usize_dec, parse_usize_spec, int_dec, is_meaningful, is_word, is_ws, join_lines, lemma_i64_dec, lemma_join_lines_append,
    lemma_join_one_line, lemma_meaningful_all, lemma_segments_join, lemma_trimmed_padded,
    lemma_words_unwords, line_texts, meaningful_lines, no_newline, skipped_line_changes_no_text, parse_i64_spec, trimmed, unwords, words,
};

verus! {

// ---------------------------------------------------------------------------
// Lines of text
// ---------------------------------------------------------------------------

/// Whether `pad` is made of spaces only.
spec fn spaces(pad: Seq<char>) -> bool {
    forall|k: int| 0 <= k < pad.len() ==> pad[k] == ' '
}

/// Whether the lines `ls` hold no newline and trim to the meaningful lines
/// `toks`.
spec fn lines_ok(ls: Seq<Seq<char>>, toks: Seq<Seq<char>>) -> bool {
    &&& ls.len() == toks.len()
    &&& forall|k: int|
        0 <= k < ls.len() ==> no_newline(#[trigger] ls[k]) && trimmed(ls[k]) == toks[k]
            && is_meaningful(toks[k])
}

proof fn lemma_lines_ok_append(
    a: Seq<Seq<char>>,
    ta: Seq<Seq<char>>,
    b: Seq<Seq<char>>,
    tb: Seq<Seq<char>>,
)
    requires
        lines_ok(a, ta),
        lines_ok(b, tb),
    ensures
        lines_ok(a + b, ta + tb),
{
    assert forall|k: int| 0 <= k < (a + b).len() implies no_newline(#[trigger] (a + b)[k]) && trimmed(
        (a + b)[k],
    ) == (ta + tb)[k] && is_meaningful((ta + tb)[k]) by {
        if k < a.len() {
            assert((a + b)[k] == a[k]);
            assert((ta + tb)[k] == ta[k]);
        } else {
            assert((a + b)[k] == b[k - a.len()]);
            assert((ta + tb)[k] == tb[k - ta.len()]);
        }
    }
}

/// A line of spaces and a body that begins with a letter, ends with no
/// whitespace and holds no newline trims to its body, which is meaningful.
proof fn lemma_line_ok(pad: Seq<char>, body: Seq<char>)
    requires
        spaces(pad),
        body.len() > 0,
        !is_ws(body[0]),
        body[0] != '#',
        !is_ws(body.last()),
        no_newline(body),
    ensures
        lines_ok(seq![pad + body], seq![body]),
{
    lemma_trimmed_padded(pad, body);
    let l = pad + body;
    assert forall|k: int| 0 <= k < l.len() implies l[k] != '\n' by {
        if k < pad.len() {
            assert(l[k] == pad[k]);
        } else {
            assert(l[k] == body[k - pad.len()]);
        }
    }
    assert(seq![pad + body][0] == l);
}

/// A keyword followed by a space and one word.
proof fn lemma_keyword_word(key: Seq<char>, w: Seq<char>)
    requires
        is_word(key),
        is_word(w),
    ensures
        words(key + " "@ + w) == seq![key, w],
        !is_ws((key + " "@ + w).last()),
        no_newline(key + " "@ + w),
        (key + " "@ + w)[0] == key[0],
{
    reveal_strlit(" ");
    let ws = seq![key, w];
    assert(ws.drop_first() =~= seq![w]);
    assert(unwords(seq![w]) == w);
    assert(unwords(ws) == key + " "@ + w);
    assert forall|k: int| 0 <= k < ws.len() implies is_word(#[trigger] ws[k]) by {}
    lemma_words_unwords(ws);
    let s = key + " "@ + w;
    assert(s.last() == w.last());
    assert forall|k: int| 0 <= k < s.len() implies s[k] != '\n' by {
        if k < key.len() {
            assert(s[k] == key[k]);
        } else if k == key.len() {
            assert(s[k] == ' ');
        } else {
            assert(s[k] == w[k - key.len() - 1]);
        }
    }
}

/// A word alone.
proof fn lemma_single_word(w: Seq<char>)
    requires
        is_word(w),
    ensures
        words(w) == seq![w],
        !is_ws(w.last()),
        no_newline(w),
{
    let ws = seq![w];
    assert forall|k: int| 0 <= k < ws.len() implies is_word(#[trigger] ws[k]) by {}
    lemma_words_unwords(ws);
}

// ---------------------------------------------------------------------------
// BF1
// ---------------------------------------------------------------------------

/// The lines, without their newlines, that `inst_text(i, pad)` writes.
spec fn bf1_inst_lines(i: Ir1InstV, pad: Seq<char>) -> Seq<Seq<char>>
    decreases i,
{
    match i {
        Ir1InstV::PtrMove(v) => seq![pad + ("PTR"@ + " "@ + int_dec(v as int))],
        Ir1InstV::CellAdd(v) => seq![pad + ("CELL"@ + " "@ + int_dec(v as int))],
        Ir1InstV::Input => seq![pad + "IN"@],
        Ir1InstV::Output => seq![pad + "OUT"@],
        Ir1InstV::Loop(b) => seq![pad + "LOOP_BEGIN"@] + bf1_block_lines(b, pad + "  "@) + seq![
            pad + "LOOP_END"@,
        ],
    }
}

/// The lines, without their newlines, that `block_text(b, pad)` writes.
spec fn bf1_block_lines(b: Seq<Ir1InstV>, pad: Seq<char>) -> Seq<Seq<char>>
    decreases b,
{
    if b.len() == 0 {
        Seq::empty()
    } else {
        bf1_inst_lines(b[0], pad) + bf1_block_lines(b.subrange(1, b.len() as int), pad)
    }
}

/// The trimmed lines of an instruction.
spec fn bf1_inst_tokens(i: Ir1InstV) -> Seq<Seq<char>>
    decreases i,
{
    match i {
        Ir1InstV::PtrMove(v) => seq!["PTR"@ + " "@ + int_dec(v as int)],
        Ir1InstV::CellAdd(v) => seq!["CELL"@ + " "@ + int_dec(v as int)],
        Ir1InstV::Input => seq!["IN"@],
        Ir1InstV::Output => seq!["OUT"@],
        Ir1InstV::Loop(b) => seq!["LOOP_BEGIN"@] + bf1_block_tokens(b) + seq!["LOOP_END"@],
    }
}

/// The trimmed lines of a block.
spec fn bf1_block_tokens(b: Seq<Ir1InstV>) -> Seq<Seq<char>>
    decreases b,
{
    if b.len() == 0 {
        Seq::empty()
    } else {
        bf1_inst_tokens(b[0]) + bf1_block_tokens(b.subrange(1, b.len() as int))
    }
}

proof fn lemma_bf1_inst_join(i: Ir1InstV, pad: Seq<char>)
    ensures
        inst_text(i, pad) == join_lines(bf1_inst_lines(i, pad)),
    decreases i,
{
    reveal_strlit("PTR ");
    reveal_strlit("PTR");
    reveal_strlit("CELL ");
    reveal_strlit("CELL");
    reveal_strlit(" ");
    reveal_strlit("\n");
    reveal_strlit("IN\n");
    reveal_strlit("IN");
    reveal_strlit("OUT\n");
    reveal_strlit("OUT");
    reveal_strlit("LOOP_BEGIN\n");
    reveal_strlit("LOOP_BEGIN");
    reveal_strlit("LOOP_END\n");
    reveal_strlit("LOOP_END");
    match i {
        Ir1InstV::Loop(b) => {
            let inner = pad + "  "@;
            lemma_bf1_block_join(b, inner);
            let a = seq![pad + "LOOP_BEGIN"@];
            let m = bf1_block_lines(b, inner);
            let c = seq![pad + "LOOP_END"@];
            lemma_join_lines_append(a + m, c);
            lemma_join_lines_append(a, m);
            lemma_join_one_line(pad + "LOOP_BEGIN"@);
            lemma_join_one_line(pad + "LOOP_END"@);
            assert(inst_text(i, pad) =~= join_lines(bf1_inst_lines(i, pad)));
        },
        _ => {
            let l = bf1_inst_lines(i, pad)[0];
            assert(bf1_inst_lines(i, pad) == seq![l]);
            lemma_join_one_line(l);
            assert(inst_text(i, pad) =~= join_lines(bf1_inst_lines(i, pad)));
        },
    }
}

proof fn lemma_bf1_block_join(b: Seq<Ir1InstV>, pad: Seq<char>)
    ensures
        block_text(b, pad) == join_lines(bf1_block_lines(b, pad)),
    decreases b,
{
    if b.len() > 0 {
        let t = b.subrange(1, b.len() as int);
        lemma_bf1_inst_join(b[0], pad);
        lemma_bf1_block_join(t, pad);
        lemma_join_lines_append(bf1_inst_lines(b[0], pad), bf1_block_lines(t, pad));
    }
}

proof fn lemma_bf1_inst_lines_ok(i: Ir1InstV, pad: Seq<char>)
    requires
        spaces(pad),
    ensures
        lines_ok(bf1_inst_lines(i, pad), bf1_inst_tokens(i)),
    decreases i,
{
    reveal_strlit("PTR");
    reveal_strlit("CELL");
    reveal_strlit("IN");
    reveal_strlit("OUT");
    reveal_strlit("LOOP_BEGIN");
    reveal_strlit("LOOP_END");
    reveal_strlit("  ");
    match i {
        Ir1InstV::PtrMove(v) => {
            lemma_i64_dec(v);
            lemma_keyword_word("PTR"@, int_dec(v as int));
            lemma_line_ok(pad, "PTR"@ + " "@ + int_dec(v as int));
        },
        Ir1InstV::CellAdd(v) => {
            lemma_i64_dec(v);
            lemma_keyword_word("CELL"@, int_dec(v as int));
            lemma_line_ok(pad, "CELL"@ + " "@ + int_dec(v as int));
        },
        Ir1InstV::Input => {
            lemma_single_word("IN"@);
            lemma_line_ok(pad, "IN"@);
        },
        Ir1InstV::Output => {
            lemma_single_word("OUT"@);
            lemma_line_ok(pad, "OUT"@);
        },
        Ir1InstV::Loop(b) => {
            let inner = pad + "  "@;
            assert(spaces(inner)) by {
                assert forall|k: int| 0 <= k < inner.len() implies inner[k] == ' ' by {
                    if k >= pad.len() {
                        assert(inner[k] == "  "@[k - pad.len()]);
                    }
                }
            }
            lemma_bf1_block_lines_ok(b, inner);
            lemma_single_word("LOOP_BEGIN"@);
            lemma_single_word("LOOP_END"@);
            lemma_line_ok(pad, "LOOP_BEGIN"@);
            lemma_line_ok(pad, "LOOP_END"@);
            lemma_lines_ok_append(
                seq![pad + "LOOP_BEGIN"@],
                seq!["LOOP_BEGIN"@],
                bf1_block_lines(b, inner),
                bf1_block_tokens(b),
            );
            lemma_lines_ok_append(
                seq![pad + "LOOP_BEGIN"@] + bf1_block_lines(b, inner),
                seq!["LOOP_BEGIN"@] + bf1_block_tokens(b),
                seq![pad + "LOOP_END"@],
                seq!["LOOP_END"@],
            );
        },
    }
}

proof fn lemma_bf1_block_lines_ok(b: Seq<Ir1InstV>, pad: Seq<char>)
    requires
        spaces(pad),
    ensures
        lines_ok(bf1_block_lines(b, pad), bf1_block_tokens(b)),
    decreases b,
{
    if b.len() > 0 {
        let t = b.subrange(1, b.len() as int);
        lemma_bf1_inst_lines_ok(b[0], pad);
        lemma_bf1_block_lines_ok(t, pad);
        lemma_lines_ok_append(
            bf1_inst_lines(b[0], pad),
            bf1_inst_tokens(b[0]),
            bf1_block_lines(t, pad),
            bf1_block_tokens(t),
        );
    }
}

/// The texts of numbered lines.
spec fn texts(lines: Seq<(int, Seq<char>)>) -> Seq<Seq<char>> {
    lines.map_values(|l: (int, Seq<char>)| l.1)
}

/// The BF1 reading state after `lines`, starting from `st`.
spec fn bf1_fold_from(st: Seq<Seq<Ir1InstV>>, lines: Seq<(int, Seq<char>)>) -> Result<
    Seq<Seq<Ir1InstV>>,
    Ir1ErrorV,
>
    decreases lines.len(),
{
    if lines.len() == 0 {
        Ok(st)
    } else {
        match bf1_fold_from(st, lines.drop_last()) {
            Err(e) => Err(e),
            Ok(s) => bf1_step(s, lines.last()),
        }
    }
}

proof fn lemma_bf1_fold_start(lines: Seq<(int, Seq<char>)>)
    ensures
        bf1_fold(lines) == bf1_fold_from(seq![Seq::empty()], lines),
    decreases lines.len(),
{
    if lines.len() > 0 {
        lemma_bf1_fold_start(lines.drop_last());
    }
}

proof fn lemma_bf1_fold_append(
    st: Seq<Seq<Ir1InstV>>,
    a: Seq<(int, Seq<char>)>,
    b: Seq<(int, Seq<char>)>,
)
    ensures
        bf1_fold_from(st, a + b) == (match bf1_fold_from(st, a) {
            Ok(s) => bf1_fold_from(s, b),
            Err(e) => Err(e),
        }),
    decreases b.len(),
{
    if b.len() == 0 {
        assert(a + b =~= a);
    } else {
        lemma_bf1_fold_append(st, a, b.drop_last());
        assert((a + b).drop_last() =~= a + b.drop_last());
        assert((a + b).last() == b.last());
    }
}

/// One keyword-led line read inside a block.
proof fn lemma_bf1_step_inst(st: Seq<Seq<Ir1InstV>>, line: (int, Seq<char>), i: Ir1InstV)
    requires
        st.len() >= 1,
        !(i is Loop),
        seq![line.1] == bf1_inst_tokens(i),
    ensures
        bf1_step(st, line) == Ok::<Seq<Seq<Ir1InstV>>, Ir1ErrorV>(
            st.drop_last().push(st.last().push(i)),
        ),
{
    reveal_strlit("PTR");
    reveal_strlit("CELL");
    reveal_strlit("IN");
    reveal_strlit("OUT");
    reveal_strlit("LOOP_BEGIN");
    reveal_strlit("LOOP_END");
    reveal_strlit(" ");
    let text = line.1;
    assert(text == bf1_inst_tokens(i)[0]);
    match i {
        Ir1InstV::PtrMove(v) => {
            lemma_i64_dec(v);
            lemma_keyword_word("PTR"@, int_dec(v as int));
            assert(text[0] == 'P');
        },
        Ir1InstV::CellAdd(v) => {
            lemma_i64_dec(v);
            lemma_keyword_word("CELL"@, int_dec(v as int));
            assert(text[0] == 'C');
        },
        Ir1InstV::Input => {
            lemma_single_word("IN"@);
            assert(text[0] == 'I');
            assert("IN"@ != "PTR"@);
            assert("IN"@ != "CELL"@);
        },
        Ir1InstV::Output => {
            lemma_single_word("OUT"@);
            assert(text[0] == 'O');
            assert("OUT"@ != "PTR"@);
            assert("OUT"@ != "CELL"@);
            assert("OUT"@ != "IN"@);
        },
        Ir1InstV::Loop(_) => {},
    }
    assert(text != "LOOP_END"@);
    assert(text != "LOOP_BEGIN"@);
    assert(parse_inst_spec(line.0, text) == Ok::<Ir1InstV, Ir1ErrorV>(i));
}

proof fn lemma_bf1_fold_inst(st: Seq<Seq<Ir1InstV>>, lines: Seq<(int, Seq<char>)>, i: Ir1InstV)
    requires
        st.len() >= 1,
        texts(lines) == bf1_inst_tokens(i),
    ensures
        bf1_fold_from(st, lines) == Ok::<Seq<Seq<Ir1InstV>>, Ir1ErrorV>(
            st.drop_last().push(st.last().push(i)),
        ),
    decreases i,
{
    reveal_strlit("LOOP_BEGIN");
    reveal_strlit("LOOP_END");
    assert(lines.len() == bf1_inst_tokens(i).len());
    match i {
        Ir1InstV::Loop(b) => {
            let n = lines.len() as int;
            let a = lines.take(1);
            let m = lines.subrange(1, n - 1);
            let c = lines.skip(n - 1);
            assert(lines =~= a + m + c);
            let toks = bf1_inst_tokens(i);
            assert(texts(lines)[0] == lines[0].1);
            assert(lines[0].1 == "LOOP_BEGIN"@);
            assert(texts(lines)[n - 1] == lines[n - 1].1);
            assert(lines[n - 1].1 == "LOOP_END"@);
            assert(texts(m) =~= bf1_block_tokens(b)) by {
                assert forall|k: int| 0 <= k < m.len() implies texts(m)[k] == bf1_block_tokens(b)[k] by {
                    assert(texts(lines)[k + 1] == toks[k + 1]);
                }
            }
            assert(a == seq![lines[0]]);
            assert(bf1_fold_from(st, a) == bf1_step(st, lines[0])) by {
                assert(a.drop_last() =~= Seq::<(int, Seq<char>)>::empty());
                assert(bf1_fold_from(st, a.drop_last()) == Ok::<Seq<Seq<Ir1InstV>>, Ir1ErrorV>(st));
                assert(a.last() == lines[0]);
            }
            let st1 = st.push(Seq::empty());
            assert(bf1_step(st, lines[0]) == Ok::<Seq<Seq<Ir1InstV>>, Ir1ErrorV>(st1));
            lemma_bf1_fold_block(st1, m, b);
            assert(st1.drop_last().push(st1.last() + b) =~= st.push(b));
            assert(c == seq![lines[n - 1]]);
            assert(bf1_fold_from(st.push(b), c) == bf1_step(st.push(b), lines[n - 1])) by {
                assert(c.drop_last() =~= Seq::<(int, Seq<char>)>::empty());
                assert(bf1_fold_from(st.push(b), c.drop_last()) == Ok::<Seq<Seq<Ir1InstV>>, Ir1ErrorV>(
                    st.push(b),
                ));
                assert(c.last() == lines[n - 1]);
            }
            assert(st.push(b).drop_last() =~= st);
            assert(st.push(b).last() == b);
            lemma_bf1_fold_append(st, a, m);
            assert(bf1_fold_from(st, a + m) == Ok::<Seq<Seq<Ir1InstV>>, Ir1ErrorV>(st.push(b)));
            lemma_bf1_fold_append(st, a + m, c);
            assert(bf1_step(st.push(b), lines[n - 1]) == Ok::<Seq<Seq<Ir1InstV>>, Ir1ErrorV>(
                st.drop_last().push(st.last().push(Ir1InstV::Loop(b))),
            ));
            assert(bf1_fold_from(st, a + m + c) == bf1_fold_from(st.push(b), c));
            assert(bf1_fold_from(st, lines) == bf1_fold_from(st, a + m + c));
            assert(bf1_fold_from(st, lines) == Ok::<Seq<Seq<Ir1InstV>>, Ir1ErrorV>(
                st.drop_last().push(st.last().push(Ir1InstV::Loop(b))),
            ));

        },
        _ => {
            assert(lines == seq![lines[0]]);
            assert(texts(lines)[0] == lines[0].1);
            lemma_bf1_step_inst(st, lines[0], i);
            assert(lines.drop_last() =~= Seq::<(int, Seq<char>)>::empty());
            assert(bf1_fold_from(st, lines.drop_last()) == Ok::<Seq<Seq<Ir1InstV>>, Ir1ErrorV>(st));
            assert(lines.last() == lines[0]);
        },
    }
}

proof fn lemma_bf1_fold_block(st: Seq<Seq<Ir1InstV>>, lines: Seq<(int, Seq<char>)>, b: Seq<Ir1InstV>)
    requires
        st.len() >= 1,
        texts(lines) == bf1_block_tokens(b),
    ensures
        bf1_fold_from(st, lines) == Ok::<Seq<Seq<Ir1InstV>>, Ir1ErrorV>(
            st.drop_last().push(st.last() + b),
        ),
    decreases b,
{
    assert(lines.len() == bf1_block_tokens(b).len());
    if b.len() == 0 {
        assert(st.drop_last().push(st.last() + b) =~= st);
    } else {
        let t = b.subrange(1, b.len() as int);
        let k = bf1_inst_tokens(b[0]).len() as int;
        let a = lines.take(k);
        let r = lines.skip(k);
        assert(lines =~= a + r);
        assert(texts(a) =~= bf1_inst_tokens(b[0])) by {
            assert forall|j: int| 0 <= j < a.len() implies texts(a)[j] == bf1_inst_tokens(b[0])[j] by {
                assert(texts(lines)[j] == bf1_block_tokens(b)[j]);
            }
        }
        assert(texts(r) =~= bf1_block_tokens(t)) by {
            assert forall|j: int| 0 <= j < r.len() implies texts(r)[j] == bf1_block_tokens(t)[j] by {
                assert(texts(lines)[j + k] == bf1_block_tokens(b)[j + k]);
            }
        }
        lemma_bf1_fold_inst(st, a, b[0]);
        let st1 = st.drop_last().push(st.last().push(b[0]));
        lemma_bf1_fold_block(st1, r, t);
        lemma_bf1_fold_append(st, a, r);
        assert(st1.drop_last() =~= st.drop_last());
        assert(st1.last() + t =~= st.last() + b);
    }
}

/// Reading back the BF1 text of a program gives the program.
pub proof fn bf1_text_roundtrip(p: Seq<Ir1InstV>)
    ensures
        bf1_parse(bf1_text(p)) == Ok::<Seq<Ir1InstV>, Ir1ErrorV>(p),
{
    reveal_strlit("BF1");
    reveal_strlit("BF1\n");
    reveal_strlit("\n");
    let ls = seq!["BF1"@] + bf1_block_lines(p, Seq::empty());
    let toks = seq!["BF1"@] + bf1_block_tokens(p);
    lemma_bf1_block_join(p, Seq::empty());
    lemma_join_one_line("BF1"@);
    lemma_join_lines_append(seq!["BF1"@], bf1_block_lines(p, Seq::empty()));
    assert(bf1_text(p) =~= join_lines(ls));
    lemma_single_word("BF1"@);
    lemma_line_ok(Seq::empty(), "BF1"@);
    assert(Seq::<char>::empty() + "BF1"@ =~= "BF1"@);
    lemma_bf1_block_lines_ok(p, Seq::empty());
    lemma_lines_ok_append(seq!["BF1"@], seq!["BF1"@], bf1_block_lines(p, Seq::empty()), bf1_block_tokens(p));
    assert forall|k: int| 0 <= k < ls.len() implies no_newline(#[trigger] ls[k]) by {}
    lemma_segments_join(ls);
    assert forall|k: int| 0 <= k < ls.len() implies is_meaningful(#[trigger] trimmed(ls[k])) by {
        assert(trimmed(ls[k]) == toks[k]);
    }
    lemma_meaningful_all(ls, 1);
    let lines = meaningful_lines(bf1_text(p));
    assert(lines == Seq::new(ls.len(), |k: int| (1 + k, trimmed(ls[k]))));
    assert(lines[0].1 == "BF1"@);
    let rest = lines.drop_first();
    assert(texts(rest) =~= bf1_block_tokens(p)) by {
        assert forall|j: int| 0 <= j < rest.len() implies texts(rest)[j] == bf1_block_tokens(p)[j] by {
            assert(rest[j] == lines[j + 1]);
            assert(trimmed(ls[j + 1]) == toks[j + 1]);
        }
    }
    lemma_bf1_fold_start(rest);
    let st0: Seq<Seq<Ir1InstV>> = seq![Seq::empty()];
    lemma_bf1_fold_block(st0, rest, p);
    assert(st0.drop_last().push(st0.last() + p) =~= seq![p]);
}


// ---------------------------------------------------------------------------
// BF2
// ---------------------------------------------------------------------------

/// Whether the BF2 text of function `f` reads back as `f`: its name is one
/// word, some block has the entry identifier, and each of its blocks has a
/// terminator.
pub open spec fn bf2_function_writable(f: FuncV) -> bool {
    &&& is_word(f.0)
    &&& exists|i: int| 0 <= i < f.2.len() && (#[trigger] f.2[i]).0 == f.1
    &&& forall|j: int| 0 <= j < f.2.len() ==> (#[trigger] f.2[j]).2 is Some
}

/// Whether the BF2 text of program `p` reads back as `p`: each of its
/// functions can be written.
pub open spec fn bf2_writable(p: Seq<FuncV>) -> bool {
    forall|k: int| 0 <= k < p.len() ==> bf2_function_writable(#[trigger] p[k])
}

/// The text of an instruction line, without indentation.
spec fn inst2_token(i: Ir2Inst) -> Seq<char> {
    match i {
        Ir2Inst::AddPtrImm(v) => "PTR"@ + " "@ + int_dec(v as int),
        Ir2Inst::AddCellImm(v) => "CELL"@ + " "@ + int_dec(v as int),
        Ir2Inst::ReadByteToCell => "IN"@,
        Ir2Inst::WriteCellLow8 => "OUT"@,
    }
}

/// What follows `TERM ` on a terminator line.
spec fn term_rest(t: Ir2Terminator) -> Seq<char> {
    match t {
        Ir2Terminator::Jump(x) => "JUMP"@ + " "@ + int_dec(x as int),
        Ir2Terminator::BranchCellZero(z, nz) => "BRANCH_ZERO"@ + " "@ + (int_dec(z as int) + " "@
            + int_dec(nz as int)),
        Ir2Terminator::Return => "RETURN"@,
    }
}

/// The text of a terminator line, without indentation.
spec fn term_token(t: Ir2Terminator) -> Seq<char> {
    "TERM"@ + " "@ + term_rest(t)
}

spec fn block_header(id: usize) -> Seq<char> {
    "BLOCK"@ + " "@ + int_dec(id as int)
}

spec fn func_header(f: FuncV) -> Seq<char> {
    "FUNC"@ + " "@ + (f.0 + " "@ + ("ENTRY"@ + " "@ + int_dec(f.1 as int)))
}

spec fn insts_lines(is: Seq<Ir2Inst>, pad: Seq<char>) -> Seq<Seq<char>>
    decreases is.len(),
{
    if is.len() == 0 {
        Seq::empty()
    } else {
        insts_lines(is.drop_last(), pad).push(pad + inst2_token(is.last()))
    }
}

spec fn term_lines(t: Option<Ir2Terminator>, pad: Seq<char>) -> Seq<Seq<char>> {
    match t {
        None => Seq::empty(),
        Some(t) => seq![pad + term_token(t)],
    }
}

spec fn block2_lines(b: BlockV, pad: Seq<char>) -> Seq<Seq<char>> {
    seq![block_header(b.0)] + insts_lines(b.1, pad) + term_lines(b.2, pad)
}

spec fn blocks2_lines(bs: Seq<BlockV>, pad: Seq<char>) -> Seq<Seq<char>>
    decreases bs.len(),
{
    if bs.len() == 0 {
        Seq::empty()
    } else {
        blocks2_lines(bs.drop_last(), pad) + block2_lines(bs.last(), pad)
    }
}

spec fn func2_lines(f: FuncV, pad: Seq<char>) -> Seq<Seq<char>> {
    seq![func_header(f)] + blocks2_lines(f.2, pad) + seq!["END_FUNC"@]
}

spec fn funcs2_lines(fs: Seq<FuncV>, pad: Seq<char>) -> Seq<Seq<char>>
    decreases fs.len(),
{
    if fs.len() == 0 {
        Seq::empty()
    } else {
        funcs2_lines(fs.drop_last(), pad) + func2_lines(fs.last(), pad)
    }
}

/// Joining one more line.
proof fn lemma_join_push(ls: Seq<Seq<char>>, l: Seq<char>)
    ensures
        join_lines(ls.push(l)) == join_lines(ls) + l + "\n"@,
{
    assert(ls.push(l).drop_last() =~= ls);
    assert(ls.push(l).last() == l);
}

proof fn lemma_insts_join(is: Seq<Ir2Inst>)
    ensures
        insts_text(is) == join_lines(insts_lines(is, "  "@)),
    decreases is.len(),
{
    reveal_strlit("  PTR ");
    reveal_strlit("  CELL ");
    reveal_strlit("  IN\n");
    reveal_strlit("  OUT\n");
    reveal_strlit("PTR");
    reveal_strlit("CELL");
    reveal_strlit("IN");
    reveal_strlit("OUT");
    reveal_strlit(" ");
    reveal_strlit("  ");
    reveal_strlit("\n");
    if is.len() > 0 {
        lemma_insts_join(is.drop_last());
        lemma_join_push(insts_lines(is.drop_last(), "  "@), "  "@ + inst2_token(is.last()));
        assert(inst2_text(is.last()) =~= "  "@ + inst2_token(is.last()) + "\n"@);
        assert(insts_text(is) =~= join_lines(insts_lines(is, "  "@)));
    }
}

proof fn lemma_term_join(t: Option<Ir2Terminator>)
    ensures
        term_text(t) == join_lines(term_lines(t, "  "@)),
{
    reveal_strlit("  TERM JUMP ");
    reveal_strlit("  TERM BRANCH_ZERO ");
    reveal_strlit("  TERM RETURN\n");
    reveal_strlit("TERM");
    reveal_strlit("JUMP");
    reveal_strlit("BRANCH_ZERO");
    reveal_strlit("RETURN");
    reveal_strlit(" ");
    reveal_strlit("  ");
    reveal_strlit("\n");
    match t {
        None => {},
        Some(x) => {
            lemma_join_one_line("  "@ + term_token(x));
            assert(term_text(t) =~= join_lines(term_lines(t, "  "@)));
        },
    }
}

proof fn lemma_block2_join(b: BlockV)
    ensures
        block2_text(b) == join_lines(block2_lines(b, "  "@)),
{
    reveal_strlit("BLOCK ");
    reveal_strlit("BLOCK");
    reveal_strlit(" ");
    reveal_strlit("\n");
    lemma_insts_join(b.1);
    lemma_term_join(b.2);
    let h = seq![block_header(b.0)];
    let a = insts_lines(b.1, "  "@);
    let c = term_lines(b.2, "  "@);
    lemma_join_lines_append(h + a, c);
    lemma_join_lines_append(h, a);
    lemma_join_one_line(block_header(b.0));
    assert(block2_text(b) =~= join_lines(block2_lines(b, "  "@)));
}

proof fn lemma_blocks2_join(bs: Seq<BlockV>)
    ensures
        blocks2_text(bs) == join_lines(blocks2_lines(bs, "  "@)),
    decreases bs.len(),
{
    if bs.len() > 0 {
        lemma_blocks2_join(bs.drop_last());
        lemma_block2_join(bs.last());
        lemma_join_lines_append(blocks2_lines(bs.drop_last(), "  "@), block2_lines(bs.last(), "  "@));
    }
}

proof fn lemma_func2_join(f: FuncV)
    ensures
        func_text(f) == join_lines(func2_lines(f, "  "@)),
{
    reveal_strlit("FUNC ");
    reveal_strlit(" ENTRY ");
    reveal_strlit("END_FUNC\n");
    reveal_strlit("FUNC");
    reveal_strlit("ENTRY");
    reveal_strlit("END_FUNC");
    reveal_strlit(" ");
    reveal_strlit("\n");
    lemma_blocks2_join(f.2);
    let h = seq![func_header(f)];
    let m = blocks2_lines(f.2, "  "@);
    let e = seq!["END_FUNC"@];
    lemma_join_lines_append(h + m, e);
    lemma_join_lines_append(h, m);
    lemma_join_one_line(func_header(f));
    lemma_join_one_line("END_FUNC"@);
    assert(func_text(f) =~= join_lines(func2_lines(f, "  "@)));
}

proof fn lemma_funcs2_join(fs: Seq<FuncV>)
    ensures
        funcs_text(fs) == join_lines(funcs2_lines(fs, "  "@)),
    decreases fs.len(),
{
    if fs.len() > 0 {
        lemma_funcs2_join(fs.drop_last());
        lemma_func2_join(fs.last());
        lemma_join_lines_append(funcs2_lines(fs.drop_last(), "  "@), func2_lines(fs.last(), "  "@));
    }
}

/// The words of an instruction line.
spec fn inst2_words(i: Ir2Inst) -> Seq<Seq<char>> {
    match i {
        Ir2Inst::AddPtrImm(v) => seq!["PTR"@, int_dec(v as int)],
        Ir2Inst::AddCellImm(v) => seq!["CELL"@, int_dec(v as int)],
        Ir2Inst::ReadByteToCell => seq!["IN"@],
        Ir2Inst::WriteCellLow8 => seq!["OUT"@],
    }
}

/// The words after `TERM` on a terminator line.
spec fn term_rest_words(t: Ir2Terminator) -> Seq<Seq<char>> {
    match t {
        Ir2Terminator::Jump(x) => seq!["JUMP"@, int_dec(x as int)],
        Ir2Terminator::BranchCellZero(z, nz) => seq!["BRANCH_ZERO"@, int_dec(z as int), int_dec(nz as int)],
        Ir2Terminator::Return => seq!["RETURN"@],
    }
}

spec fn block_words(id: usize) -> Seq<Seq<char>> {
    seq!["BLOCK"@, int_dec(id as int)]
}

spec fn func_words(f: FuncV) -> Seq<Seq<char>> {
    seq!["FUNC"@, f.0, "ENTRY"@, int_dec(f.1 as int)]
}

/// Words joined by spaces: their shape.
proof fn lemma_unwords_shape(ws: Seq<Seq<char>>)
    requires
        ws.len() > 0,
        forall|k: int| 0 <= k < ws.len() ==> is_word(#[trigger] ws[k]),
    ensures
        unwords(ws).len() > 0,
        unwords(ws)[0] == ws[0][0],
        unwords(ws).last() == ws.last().last(),
        no_newline(unwords(ws)),
        words(unwords(ws)) == ws,
    decreases ws.len(),
{
    reveal_strlit(" ");
    lemma_words_unwords(ws);
    assert(is_word(ws[0]));
    if ws.len() == 1 {
        assert forall|k: int| 0 <= k < ws[0].len() implies ws[0][k] != '\n' by {
            assert(!is_ws(ws[0][k]));
        }
    } else {
        let t = ws.drop_first();
        assert forall|k: int| 0 <= k < t.len() implies is_word(#[trigger] t[k]) by {
            assert(t[k] == ws[k + 1]);
        }
        lemma_unwords_shape(t);
        let u = ws[0] + " "@ + unwords(t);
        assert(unwords(ws) == u);
        assert(u[0] == ws[0][0]);
        assert(u.last() == unwords(t).last());
        assert(t.last() == ws.last());
        assert forall|k: int| 0 <= k < u.len() implies u[k] != '\n' by {
            if k < ws[0].len() {
                assert(u[k] == ws[0][k]);
                assert(!is_ws(ws[0][k]));
            } else if k == ws[0].len() {
                assert(u[k] == ' ');
            } else {
                assert(u[k] == unwords(t)[k - ws[0].len() - 1]);
            }
        }
    }
}

proof fn lemma_unwords_two(a: Seq<char>, b: Seq<char>)
    ensures
        unwords(seq![a, b]) == a + " "@ + b,
{
    let ws = seq![a, b];
    assert(ws.drop_first() =~= seq![b]);
    assert(unwords(seq![b]) == b);
}

proof fn lemma_unwords_cons(a: Seq<char>, ws: Seq<Seq<char>>)
    requires
        ws.len() > 0,
    ensures
        unwords(seq![a] + ws) == a + " "@ + unwords(ws),
{
    let v = seq![a] + ws;
    assert(v.drop_first() =~= ws);
    assert(v[0] == a);
}

proof fn lemma_inst2_words(i: Ir2Inst)
    ensures
        unwords(inst2_words(i)) == inst2_token(i),
        forall|k: int| 0 <= k < inst2_words(i).len() ==> is_word(#[trigger] inst2_words(i)[k]),
        inst2_words(i).len() > 0,
{
    reveal_strlit("PTR");
    reveal_strlit("CELL");
    reveal_strlit("IN");
    reveal_strlit("OUT");
    let ws = inst2_words(i);
    match i {
        Ir2Inst::AddPtrImm(v) => {
            lemma_i64_dec(v);
            lemma_unwords_two("PTR"@, int_dec(v as int));
        },
        Ir2Inst::AddCellImm(v) => {
            lemma_i64_dec(v);
            lemma_unwords_two("CELL"@, int_dec(v as int));
        },
        _ => {},
    }
    assert forall|k: int| 0 <= k < ws.len() implies is_word(#[trigger] ws[k]) by {}
}

proof fn lemma_term_words(t: Ir2Terminator)
    ensures
        unwords(seq!["TERM"@] + term_rest_words(t)) == term_token(t),
        unwords(term_rest_words(t)) == term_rest(t),
        forall|k: int| 0 <= k < term_rest_words(t).len() ==> is_word(#[trigger] term_rest_words(t)[k]),
        forall|k: int|
            0 <= k < (seq!["TERM"@] + term_rest_words(t)).len() ==> is_word(
                #[trigger] (seq!["TERM"@] + term_rest_words(t))[k],
            ),
        term_rest_words(t).len() > 0,
{
    reveal_strlit("TERM");
    reveal_strlit("JUMP");
    reveal_strlit("BRANCH_ZERO");
    reveal_strlit("RETURN");
    let rw = term_rest_words(t);
    match t {
        Ir2Terminator::Jump(x) => {
            lemma_usize_dec(x);
            lemma_unwords_two("JUMP"@, int_dec(x as int));
        },
        Ir2Terminator::BranchCellZero(z, nz) => {
            lemma_usize_dec(z);
            lemma_usize_dec(nz);
            lemma_unwords_two(int_dec(z as int), int_dec(nz as int));
            assert(rw =~= seq!["BRANCH_ZERO"@] + seq![int_dec(z as int), int_dec(nz as int)]);
            lemma_unwords_cons("BRANCH_ZERO"@, seq![int_dec(z as int), int_dec(nz as int)]);
        },
        Ir2Terminator::Return => {},
    }
    lemma_unwords_cons("TERM"@, rw);
    let ws = seq!["TERM"@] + rw;
    assert(ws.drop_first() =~= rw);
    assert(ws[0] == "TERM"@);
    assert forall|k: int| 0 <= k < rw.len() implies is_word(#[trigger] rw[k]) by {}
    assert forall|k: int| 0 <= k < ws.len() implies is_word(#[trigger] ws[k]) by {
        if k > 0 {
            assert(ws[k] == rw[k - 1]);
        }
    }
}

proof fn lemma_header_words(id: usize, f: FuncV)
    requires
        is_word(f.0),
    ensures
        unwords(block_words(id)) == block_header(id),
        unwords(func_words(f)) == func_header(f),
        block_words(id).len() == 2,
        func_words(f).len() == 4,
        forall|k: int| 0 <= k < 2 ==> is_word(#[trigger] block_words(id)[k]),
        forall|k: int| 0 <= k < 4 ==> is_word(#[trigger] func_words(f)[k]),
{
    reveal_strlit("BLOCK");
    reveal_strlit("FUNC");
    reveal_strlit("ENTRY");
    lemma_usize_dec(id);
    lemma_usize_dec(f.1);
    let b = block_words(id);
    lemma_unwords_two("BLOCK"@, int_dec(id as int));
    let h = func_words(f);
    lemma_unwords_two("ENTRY"@, int_dec(f.1 as int));
    assert(seq![f.0, "ENTRY"@, int_dec(f.1 as int)] =~= seq![f.0] + seq!["ENTRY"@, int_dec(f.1 as int)]);
    lemma_unwords_cons(f.0, seq!["ENTRY"@, int_dec(f.1 as int)]);
    assert(h =~= seq!["FUNC"@] + seq![f.0, "ENTRY"@, int_dec(f.1 as int)]);
    lemma_unwords_cons("FUNC"@, seq![f.0, "ENTRY"@, int_dec(f.1 as int)]);
    assert forall|k: int| 0 <= k < 2 implies is_word(#[trigger] b[k]) by {}
    assert forall|k: int| 0 <= k < 4 implies is_word(#[trigger] h[k]) by {}
}

/// A line whose text is made of words, with the given indentation, trims to
/// its text.
proof fn lemma_word_line_ok(pad: Seq<char>, ws: Seq<Seq<char>>)
    requires
        spaces(pad),
        ws.len() > 0,
        forall|k: int| 0 <= k < ws.len() ==> is_word(#[trigger] ws[k]),
        ws[0][0] != '#',
    ensures
        lines_ok(seq![pad + unwords(ws)], seq![unwords(ws)]),
        lines_ok(seq![pad + unwords(ws)], seq![Seq::<char>::empty() + unwords(ws)]),
{
    lemma_unwords_shape(ws);
    assert(is_word(ws[0]));
    assert(is_word(ws.last()));
    assert(!is_ws(ws[0][0]));
    assert(!is_ws(ws.last().last()));
    lemma_line_ok(pad, unwords(ws));
    assert(Seq::<char>::empty() + unwords(ws) =~= unwords(ws));
}

proof fn lemma_insts_lines_ok(is: Seq<Ir2Inst>)
    ensures
        lines_ok(insts_lines(is, "  "@), insts_lines(is, Seq::empty())),
    decreases is.len(),
{
    reveal_strlit("  ");
    reveal_strlit("PTR");
    reveal_strlit("CELL");
    reveal_strlit("IN");
    reveal_strlit("OUT");
    if is.len() > 0 {
        lemma_insts_lines_ok(is.drop_last());
        let i = is.last();
        lemma_inst2_words(i);
        assert(spaces("  "@));
        lemma_word_line_ok("  "@, inst2_words(i));
        lemma_lines_ok_append(
            insts_lines(is.drop_last(), "  "@),
            insts_lines(is.drop_last(), Seq::empty()),
            seq!["  "@ + inst2_token(i)],
            seq![Seq::<char>::empty() + inst2_token(i)],
        );
        assert(insts_lines(is, "  "@) =~= insts_lines(is.drop_last(), "  "@) + seq!["  "@ + inst2_token(i)]);
        assert(insts_lines(is, Seq::empty()) =~= insts_lines(is.drop_last(), Seq::empty()) + seq![
            Seq::<char>::empty() + inst2_token(i),
        ]);
    }
}

proof fn lemma_term_lines_ok(t: Option<Ir2Terminator>)
    ensures
        lines_ok(term_lines(t, "  "@), term_lines(t, Seq::empty())),
{
    reveal_strlit("  ");
    reveal_strlit("TERM");
    match t {
        None => {},
        Some(x) => {
            lemma_term_words(x);
            assert(spaces("  "@));
            lemma_word_line_ok("  "@, seq!["TERM"@] + term_rest_words(x));
        },
    }
}

proof fn lemma_block2_lines_ok(b: BlockV)
    ensures
        lines_ok(block2_lines(b, "  "@), block2_lines(b, Seq::empty())),
{
    reveal_strlit("BLOCK");
    let dummy: FuncV = ("f"@, 0, Seq::empty());
    reveal_strlit("f");
    assert(is_word("f"@));
    lemma_header_words(b.0, dummy);
    lemma_word_line_ok(Seq::empty(), block_words(b.0));
    assert(Seq::<char>::empty() + block_header(b.0) =~= block_header(b.0));
    lemma_insts_lines_ok(b.1);
    lemma_term_lines_ok(b.2);
    let h = seq![block_header(b.0)];
    lemma_lines_ok_append(h, h, insts_lines(b.1, "  "@), insts_lines(b.1, Seq::empty()));
    lemma_lines_ok_append(
        h + insts_lines(b.1, "  "@),
        h + insts_lines(b.1, Seq::empty()),
        term_lines(b.2, "  "@),
        term_lines(b.2, Seq::empty()),
    );
}

proof fn lemma_blocks2_lines_ok(bs: Seq<BlockV>)
    ensures
        lines_ok(blocks2_lines(bs, "  "@), blocks2_lines(bs, Seq::empty())),
    decreases bs.len(),
{
    if bs.len() > 0 {
        lemma_blocks2_lines_ok(bs.drop_last());
        lemma_block2_lines_ok(bs.last());
        lemma_lines_ok_append(
            blocks2_lines(bs.drop_last(), "  "@),
            blocks2_lines(bs.drop_last(), Seq::empty()),
            block2_lines(bs.last(), "  "@),
            block2_lines(bs.last(), Seq::empty()),
        );
    }
}

proof fn lemma_func2_lines_ok(f: FuncV)
    requires
        is_word(f.0),
    ensures
        lines_ok(func2_lines(f, "  "@), func2_lines(f, Seq::empty())),
{
    reveal_strlit("FUNC");
    reveal_strlit("END_FUNC");
    lemma_header_words(0, f);
    lemma_word_line_ok(Seq::empty(), func_words(f));
    assert(Seq::<char>::empty() + func_header(f) =~= func_header(f));
    lemma_single_word("END_FUNC"@);
    lemma_line_ok(Seq::empty(), "END_FUNC"@);
    assert(Seq::<char>::empty() + "END_FUNC"@ =~= "END_FUNC"@);
    lemma_blocks2_lines_ok(f.2);
    let h = seq![func_header(f)];
    let e = seq!["END_FUNC"@];
    lemma_lines_ok_append(h, h, blocks2_lines(f.2, "  "@), blocks2_lines(f.2, Seq::empty()));
    lemma_lines_ok_append(
        h + blocks2_lines(f.2, "  "@),
        h + blocks2_lines(f.2, Seq::empty()),
        e,
        e,
    );
}

proof fn lemma_funcs2_lines_ok(fs: Seq<FuncV>)
    requires
        forall|k: int| 0 <= k < fs.len() ==> is_word(#[trigger] fs[k].0),
    ensures
        lines_ok(funcs2_lines(fs, "  "@), funcs2_lines(fs, Seq::empty())),
    decreases fs.len(),
{
    if fs.len() > 0 {
        assert(is_word(fs[fs.len() - 1].0));
        lemma_funcs2_lines_ok(fs.drop_last());
        lemma_func2_lines_ok(fs.last());
        lemma_lines_ok_append(
            funcs2_lines(fs.drop_last(), "  "@),
            funcs2_lines(fs.drop_last(), Seq::empty()),
            func2_lines(fs.last(), "  "@),
            func2_lines(fs.last(), Seq::empty()),
        );
    }
}

/// The BF2 reading state after `lines`, starting from `s`.
spec fn bf2_fold_from(s: Bf2State, lines: Seq<(int, Seq<char>)>) -> Result<Bf2State, Ir2ErrorV>
    decreases lines.len(),
{
    if lines.len() == 0 {
        Ok(s)
    } else {
        match bf2_fold_from(s, lines.drop_last()) {
            Err(e) => Err(e),
            Ok(x) => bf2_step(x, lines.last()),
        }
    }
}

proof fn lemma_bf2_fold_start(lines: Seq<(int, Seq<char>)>)
    ensures
        bf2_fold(lines) == bf2_fold_from(Bf2State::Top { funcs: Seq::empty() }, lines),
    decreases lines.len(),
{
    if lines.len() > 0 {
        lemma_bf2_fold_start(lines.drop_last());
    }
}

proof fn lemma_bf2_fold_append(s: Bf2State, a: Seq<(int, Seq<char>)>, b: Seq<(int, Seq<char>)>)
    ensures
        bf2_fold_from(s, a + b) == (match bf2_fold_from(s, a) {
            Ok(x) => bf2_fold_from(x, b),
            Err(e) => Err(e),
        }),
    decreases b.len(),
{
    if b.len() == 0 {
        assert(a + b =~= a);
    } else {
        lemma_bf2_fold_append(s, a, b.drop_last());
        assert((a + b).drop_last() =~= a + b.drop_last());
        assert((a + b).last() == b.last());
    }
}

proof fn lemma_bf2_fold_one(s: Bf2State, l: (int, Seq<char>))
    ensures
        bf2_fold_from(s, seq![l]) == bf2_step(s, l),
{
    assert(seq![l].drop_last() =~= Seq::<(int, Seq<char>)>::empty());
    assert(bf2_fold_from(s, seq![l].drop_last()) == Ok::<Bf2State, Ir2ErrorV>(s));
    assert(seq![l].last() == l);
}

/// Whether `text` does not begin with `p`, seen at their first characters.
proof fn lemma_no_prefix(text: Seq<char>, p: Seq<char>)
    requires
        text.len() > 0,
        p.len() > 0,
        text[0] != p[0],
    ensures
        !has_prefix(text, p),
{
    if has_prefix(text, p) {
        assert(text.take(p.len() as int)[0] == text[0]);
    }
}

/// Whether `s` is inside function `name` of entry `entry`, after the
/// functions `funcs`, with the blocks `bs` read: between blocks, or in the
/// last of them once its terminator is read.
spec fn at_func(s: Bf2State, funcs: Seq<FuncV>, name: Seq<char>, entry: usize, bs: Seq<BlockV>) -> bool {
    match s {
        Bf2State::Top { .. } => false,
        Bf2State::InFunc { funcs: f2, name: n2, entry: e2, blocks } => f2 == funcs && n2 == name && e2
            == entry && blocks == bs,
        Bf2State::InBlock { funcs: f2, name: n2, entry: e2, blocks, id, insts, term } => f2 == funcs
            && n2 == name && e2 == entry && term is Some && blocks.push((id, insts, term)) == bs,
    }
}

proof fn lemma_bf2_step_inst(
    funcs: Seq<FuncV>,
    name: Seq<char>,
    entry: usize,
    blocks: Seq<BlockV>,
    id: usize,
    insts: Seq<Ir2Inst>,
    line: (int, Seq<char>),
    i: Ir2Inst,
)
    requires
        line.1 == inst2_token(i),
    ensures
        bf2_step(
            Bf2State::InBlock { funcs, name, entry, blocks, id, insts, term: None },
            line,
        ) == Ok::<Bf2State, Ir2ErrorV>(
            Bf2State::InBlock { funcs, name, entry, blocks, id, insts: insts.push(i), term: None },
        ),
{
    reveal_strlit("PTR");
    reveal_strlit("CELL");
    reveal_strlit("IN");
    reveal_strlit("OUT");
    reveal_strlit("END_FUNC");
    reveal_strlit("BLOCK ");
    reveal_strlit("TERM ");
    let text = line.1;
    lemma_inst2_words(i);
    lemma_unwords_shape(inst2_words(i));
    assert(text == unwords(inst2_words(i)));
    assert(words(text) == inst2_words(i));
    assert(text[0] == inst2_words(i)[0][0]);
    assert(text[0] != 'E' && text[0] != 'B' && text[0] != 'T');
    assert(text != "END_FUNC"@);
    lemma_no_prefix(text, "BLOCK "@);
    lemma_no_prefix(text, "TERM "@);
    match i {
        Ir2Inst::ReadByteToCell => {
            assert("IN"@.len() != "PTR"@.len() && "IN"@.len() != "CELL"@.len());
        },
        Ir2Inst::WriteCellLow8 => {
            assert("OUT"@.len() != "CELL"@.len() && "OUT"@.len() != "IN"@.len());
            assert("OUT"@[0] != "PTR"@[0]);
        },
        Ir2Inst::AddPtrImm(v) => {
            lemma_i64_dec(v);
        },
        Ir2Inst::AddCellImm(v) => {
            lemma_i64_dec(v);
            assert("CELL"@.len() != "PTR"@.len());
        },
    }
    assert(parse_inst2_spec(line.0, text) == Ok::<Ir2Inst, Ir2ErrorV>(i));
}

proof fn lemma_bf2_step_term(
    funcs: Seq<FuncV>,
    name: Seq<char>,
    entry: usize,
    blocks: Seq<BlockV>,
    id: usize,
    insts: Seq<Ir2Inst>,
    line: (int, Seq<char>),
    t: Ir2Terminator,
)
    requires
        line.1 == term_token(t),
    ensures
        bf2_step(
            Bf2State::InBlock { funcs, name, entry, blocks, id, insts, term: None },
            line,
        ) == Ok::<Bf2State, Ir2ErrorV>(
            Bf2State::InBlock { funcs, name, entry, blocks, id, insts, term: Some(t) },
        ),
{
    reveal_strlit("TERM");
    reveal_strlit("TERM ");
    reveal_strlit(" ");
    reveal_strlit("JUMP");
    reveal_strlit("BRANCH_ZERO");
    reveal_strlit("RETURN");
    reveal_strlit("END_FUNC");
    reveal_strlit("BLOCK ");
    let text = line.1;
    lemma_term_words(t);
    let rw = term_rest_words(t);
    lemma_unwords_shape(rw);
    assert(text == "TERM"@ + " "@ + term_rest(t));
    assert(text[0] == 'T');
    assert(text != "END_FUNC"@);
    lemma_no_prefix(text, "BLOCK "@);
    assert(text.take(5) =~= "TERM "@);
    assert(has_prefix(text, "TERM "@));
    assert(text.skip("TERM "@.len() as int) =~= term_rest(t));
    assert(words(term_rest(t)) == rw);
    match t {
        Ir2Terminator::Jump(x) => {
            lemma_usize_dec(x);
            assert("JUMP"@ != "RETURN"@);
        },
        Ir2Terminator::BranchCellZero(z, nz) => {
            lemma_usize_dec(z);
            lemma_usize_dec(nz);
            assert("BRANCH_ZERO"@ != "RETURN"@);
            assert("BRANCH_ZERO"@ != "JUMP"@);
        },
        Ir2Terminator::Return => {},
    }
    assert(parse_term_spec(line.0, text.skip("TERM "@.len() as int)) == Ok::<Ir2Terminator, Ir2ErrorV>(t));
}

proof fn lemma_bf2_step_block_header(
    s: Bf2State,
    funcs: Seq<FuncV>,
    name: Seq<char>,
    entry: usize,
    bs: Seq<BlockV>,
    line: (int, Seq<char>),
    id: usize,
)
    requires
        at_func(s, funcs, name, entry, bs),
        line.1 == block_header(id),
    ensures
        bf2_step(s, line) == Ok::<Bf2State, Ir2ErrorV>(
            Bf2State::InBlock { funcs, name, entry, blocks: bs, id, insts: Seq::empty(), term: None },
        ),
{
    reveal_strlit("BLOCK");
    reveal_strlit("BLOCK ");
    reveal_strlit(" ");
    reveal_strlit("END_FUNC");
    let text = line.1;
    let dummy: FuncV = ("f"@, 0, Seq::empty());
    reveal_strlit("f");
    lemma_header_words(id, dummy);
    lemma_unwords_shape(block_words(id));
    lemma_usize_dec(id);
    assert(text[0] == 'B');
    assert(text != "END_FUNC"@);
    assert(words(text) == block_words(id));
    assert(parse_block_header_spec(line.0, text) == Ok::<usize, Ir2ErrorV>(id));
    assert(func_step(funcs, name, entry, bs, line) == Ok::<Bf2State, Ir2ErrorV>(
        Bf2State::InBlock { funcs, name, entry, blocks: bs, id, insts: Seq::empty(), term: None },
    ));
    assert(text.take(6) =~= "BLOCK "@);
    assert(has_prefix(text, "BLOCK "@));
}

proof fn lemma_bf2_step_end(
    s: Bf2State,
    funcs: Seq<FuncV>,
    name: Seq<char>,
    entry: usize,
    bs: Seq<BlockV>,
    line: (int, Seq<char>),
)
    requires
        at_func(s, funcs, name, entry, bs),
        has_block(bs, entry),
        line.1 == "END_FUNC"@,
    ensures
        bf2_step(s, line) == Ok::<Bf2State, Ir2ErrorV>(
            Bf2State::Top { funcs: funcs.push((name, entry, bs)) },
        ),
{
    assert(func_step(funcs, name, entry, bs, line) == Ok::<Bf2State, Ir2ErrorV>(
        Bf2State::Top { funcs: funcs.push((name, entry, bs)) },
    ));
}

proof fn lemma_bf2_step_func_header(funcs: Seq<FuncV>, line: (int, Seq<char>), f: FuncV)
    requires
        is_word(f.0),
        line.1 == func_header(f),
    ensures
        bf2_step(Bf2State::Top { funcs }, line) == Ok::<Bf2State, Ir2ErrorV>(
            Bf2State::InFunc { funcs, name: f.0, entry: f.1, blocks: Seq::empty() },
        ),
{
    reveal_strlit("FUNC");
    reveal_strlit("ENTRY");
    lemma_header_words(0, f);
    lemma_unwords_shape(func_words(f));
    lemma_usize_dec(f.1);
    assert(words(line.1) == func_words(f));
    assert(parse_func_header_spec(line.0, line.1) == Ok::<(Seq<char>, usize), Ir2ErrorV>((f.0, f.1)));
}

proof fn lemma_bf2_fold_insts(
    funcs: Seq<FuncV>,
    name: Seq<char>,
    entry: usize,
    blocks: Seq<BlockV>,
    id: usize,
    pre: Seq<Ir2Inst>,
    is: Seq<Ir2Inst>,
    lines: Seq<(int, Seq<char>)>,
)
    requires
        texts(lines) == insts_lines(is, Seq::empty()),
    ensures
        bf2_fold_from(
            Bf2State::InBlock { funcs, name, entry, blocks, id, insts: pre, term: None },
            lines,
        ) == Ok::<Bf2State, Ir2ErrorV>(
            Bf2State::InBlock { funcs, name, entry, blocks, id, insts: pre + is, term: None },
        ),
    decreases is.len(),
{
    let s0 = Bf2State::InBlock { funcs, name, entry, blocks, id, insts: pre, term: None };
    assert(lines.len() == insts_lines(is, Seq::empty()).len());
    if is.len() == 0 {
        assert(pre + is =~= pre);
    } else {
        let a = lines.drop_last();
        assert(texts(a) =~= insts_lines(is.drop_last(), Seq::empty())) by {
            assert forall|k: int| 0 <= k < a.len() implies texts(a)[k] == insts_lines(
                is.drop_last(),
                Seq::empty(),
            )[k] by {
                assert(texts(lines)[k] == insts_lines(is, Seq::empty())[k]);
            }
        }
        lemma_bf2_fold_insts(funcs, name, entry, blocks, id, pre, is.drop_last(), a);
        let l = lines.last();
        assert(texts(lines)[lines.len() - 1] == l.1);
        assert(l.1 == Seq::<char>::empty() + inst2_token(is.last()));
        assert(Seq::<char>::empty() + inst2_token(is.last()) =~= inst2_token(is.last()));
        lemma_bf2_step_inst(funcs, name, entry, blocks, id, pre + is.drop_last(), l, is.last());
        assert((pre + is.drop_last()).push(is.last()) =~= pre + is);
    }
}

proof fn lemma_bf2_fold_block(
    s: Bf2State,
    funcs: Seq<FuncV>,
    name: Seq<char>,
    entry: usize,
    bs: Seq<BlockV>,
    b: BlockV,
    lines: Seq<(int, Seq<char>)>,
)
    requires
        at_func(s, funcs, name, entry, bs),
        b.2 is Some,
        texts(lines) == block2_lines(b, Seq::empty()),
    ensures
        bf2_fold_from(s, lines) == Ok::<Bf2State, Ir2ErrorV>(
            Bf2State::InBlock { funcs, name, entry, blocks: bs, id: b.0, insts: b.1, term: b.2 },
        ),
{
    let t = b.2->0;
    let il = insts_lines(b.1, Seq::empty());
    let n = lines.len() as int;
    assert(texts(lines).len() == lines.len());
    assert(term_lines(b.2, Seq::empty()).len() == 1);
    assert(n == 1 + il.len() + 1);
    let h = lines.take(1);
    let m = lines.subrange(1, n - 1);
    let c = lines.skip(n - 1);
    assert(lines =~= h + m + c);
    let toks = block2_lines(b, Seq::empty());
    assert(texts(lines)[0] == lines[0].1);
    assert(lines[0].1 == block_header(b.0));
    assert(h == seq![lines[0]]);
    lemma_bf2_fold_one(s, lines[0]);
    lemma_bf2_step_block_header(s, funcs, name, entry, bs, lines[0], b.0);
    let s1 = Bf2State::InBlock { funcs, name, entry, blocks: bs, id: b.0, insts: Seq::empty(), term: None };
    assert(texts(m) =~= il) by {
        assert forall|k: int| 0 <= k < m.len() implies texts(m)[k] == il[k] by {
            assert(texts(lines)[k + 1] == toks[k + 1]);
        }
    }
    lemma_bf2_fold_insts(funcs, name, entry, bs, b.0, Seq::empty(), b.1, m);
    assert(Seq::<Ir2Inst>::empty() + b.1 =~= b.1);
    let s2 = Bf2State::InBlock { funcs, name, entry, blocks: bs, id: b.0, insts: b.1, term: None };
    assert(texts(lines)[n - 1] == lines[n - 1].1);
    assert(lines[n - 1].1 == Seq::<char>::empty() + term_token(t));
    assert(Seq::<char>::empty() + term_token(t) =~= term_token(t));
    assert(c == seq![lines[n - 1]]);
    lemma_bf2_fold_one(s2, lines[n - 1]);
    lemma_bf2_step_term(funcs, name, entry, bs, b.0, b.1, lines[n - 1], t);
    lemma_bf2_fold_append(s, h, m);
    lemma_bf2_fold_append(s, h + m, c);
    assert(bf2_fold_from(s, h + m) == Ok::<Bf2State, Ir2ErrorV>(s2));
    assert(bf2_fold_from(s, lines) == bf2_fold_from(s, h + m + c));
}

proof fn lemma_bf2_fold_blocks(
    funcs: Seq<FuncV>,
    name: Seq<char>,
    entry: usize,
    bs: Seq<BlockV>,
    lines: Seq<(int, Seq<char>)>,
)
    requires
        forall|j: int| 0 <= j < bs.len() ==> (#[trigger] bs[j]).2 is Some,
        texts(lines) == blocks2_lines(bs, Seq::empty()),
    ensures
        bf2_fold_from(Bf2State::InFunc { funcs, name, entry, blocks: Seq::empty() }, lines) matches Ok(
            s,
        ) && at_func(s, funcs, name, entry, bs),
    decreases bs.len(),
{
    let s0 = Bf2State::InFunc { funcs, name, entry, blocks: Seq::empty() };
    assert(lines.len() == blocks2_lines(bs, Seq::empty()).len());
    if bs.len() == 0 {
        assert(bs =~= Seq::<BlockV>::empty());
    } else {
        let pre = blocks2_lines(bs.drop_last(), Seq::empty());
        let k = pre.len() as int;
        let a = lines.take(k);
        let r = lines.skip(k);
        assert(lines =~= a + r);
        assert(texts(a) =~= pre) by {
            assert forall|j: int| 0 <= j < a.len() implies texts(a)[j] == pre[j] by {
                assert(texts(lines)[j] == blocks2_lines(bs, Seq::empty())[j]);
            }
        }
        assert(texts(r) =~= block2_lines(bs.last(), Seq::empty())) by {
            assert forall|j: int| 0 <= j < r.len() implies texts(r)[j] == block2_lines(
                bs.last(),
                Seq::empty(),
            )[j] by {
                assert(texts(lines)[j + k] == blocks2_lines(bs, Seq::empty())[j + k]);
            }
        }
        assert forall|j: int| 0 <= j < bs.drop_last().len() implies (
        #[trigger] bs.drop_last()[j]).2 is Some by {
            assert(bs.drop_last()[j] == bs[j]);
        }
        lemma_bf2_fold_blocks(funcs, name, entry, bs.drop_last(), a);
        let s1 = bf2_fold_from(s0, a)->Ok_0;
        assert(bs[bs.len() - 1].2 is Some);
        lemma_bf2_fold_block(s1, funcs, name, entry, bs.drop_last(), bs.last(), r);
        lemma_bf2_fold_append(s0, a, r);
        let b = bs.last();
        assert(bs.drop_last().push((b.0, b.1, b.2)) =~= bs);
    }
}

proof fn lemma_bf2_fold_func(funcs: Seq<FuncV>, f: FuncV, lines: Seq<(int, Seq<char>)>)
    requires
        bf2_function_writable(f),
        texts(lines) == func2_lines(f, Seq::empty()),
    ensures
        bf2_fold_from(Bf2State::Top { funcs }, lines) == Ok::<Bf2State, Ir2ErrorV>(
            Bf2State::Top { funcs: funcs.push(f) },
        ),
{
    let bl = blocks2_lines(f.2, Seq::empty());
    let n = lines.len() as int;
    assert(texts(lines).len() == lines.len());
    assert(n == 1 + bl.len() + 1);
    let h = lines.take(1);
    let m = lines.subrange(1, n - 1);
    let c = lines.skip(n - 1);
    assert(lines =~= h + m + c);
    let toks = func2_lines(f, Seq::empty());
    let s0 = Bf2State::Top { funcs };
    assert(texts(lines)[0] == lines[0].1);
    assert(h == seq![lines[0]]);
    lemma_bf2_fold_one(s0, lines[0]);
    lemma_bf2_step_func_header(funcs, lines[0], f);
    let s1 = Bf2State::InFunc { funcs, name: f.0, entry: f.1, blocks: Seq::empty() };
    assert(texts(m) =~= bl) by {
        assert forall|k: int| 0 <= k < m.len() implies texts(m)[k] == bl[k] by {
            assert(texts(lines)[k + 1] == toks[k + 1]);
        }
    }
    lemma_bf2_fold_blocks(funcs, f.0, f.1, f.2, m);
    let s2 = bf2_fold_from(s1, m)->Ok_0;
    assert(texts(lines)[n - 1] == lines[n - 1].1);
    assert(c == seq![lines[n - 1]]);
    lemma_bf2_fold_one(s2, lines[n - 1]);
    lemma_bf2_step_end(s2, funcs, f.0, f.1, f.2, lines[n - 1]);
    lemma_bf2_fold_append(s0, h, m);
    lemma_bf2_fold_append(s0, h + m, c);
    assert((f.0, f.1, f.2) == f);
    assert(bf2_fold_from(s0, lines) == bf2_fold_from(s0, h + m + c));
}

proof fn lemma_bf2_fold_funcs(fs: Seq<FuncV>, lines: Seq<(int, Seq<char>)>)
    requires
        bf2_writable(fs),
        texts(lines) == funcs2_lines(fs, Seq::empty()),
    ensures
        bf2_fold_from(Bf2State::Top { funcs: Seq::empty() }, lines) == Ok::<Bf2State, Ir2ErrorV>(
            Bf2State::Top { funcs: fs },
        ),
    decreases fs.len(),
{
    let s0 = Bf2State::Top { funcs: Seq::empty() };
    assert(lines.len() == funcs2_lines(fs, Seq::empty()).len());
    if fs.len() == 0 {
        assert(fs =~= Seq::<FuncV>::empty());
    } else {
        let pre = funcs2_lines(fs.drop_last(), Seq::empty());
        let k = pre.len() as int;
        let a = lines.take(k);
        let r = lines.skip(k);
        assert(lines =~= a + r);
        assert(texts(a) =~= pre) by {
            assert forall|j: int| 0 <= j < a.len() implies texts(a)[j] == pre[j] by {
                assert(texts(lines)[j] == funcs2_lines(fs, Seq::empty())[j]);
            }
        }
        assert(texts(r) =~= func2_lines(fs.last(), Seq::empty())) by {
            assert forall|j: int| 0 <= j < r.len() implies texts(r)[j] == func2_lines(
                fs.last(),
                Seq::empty(),
            )[j] by {
                assert(texts(lines)[j + k] == funcs2_lines(fs, Seq::empty())[j + k]);
            }
        }
        assert(bf2_writable(fs.drop_last())) by {
            assert forall|j: int| 0 <= j < fs.drop_last().len() implies bf2_function_writable(
                #[trigger] fs.drop_last()[j],
            ) by {
                assert(fs.drop_last()[j] == fs[j]);
            }
        }
        lemma_bf2_fold_funcs(fs.drop_last(), a);
        assert(bf2_function_writable(fs[fs.len() - 1]));
        lemma_bf2_fold_func(fs.drop_last(), fs.last(), r);
        lemma_bf2_fold_append(s0, a, r);
        assert(fs.drop_last().push(fs.last()) =~= fs);
    }
}

/// Reading back the BF2 text of a program gives the program, for every
/// program that the BF2 format can carry: function names that are single
/// words, entry blocks that exist, and blocks that all have a terminator.
pub proof fn bf2_text_roundtrip(p: Seq<FuncV>)
    requires
        bf2_writable(p),
    ensures
        bf2_parse(bf2_text(p)) == Ok::<Seq<FuncV>, Ir2ErrorV>(p),
{
    reveal_strlit("BF2");
    reveal_strlit("BF2\n");
    reveal_strlit("\n");
    let ls = seq!["BF2"@] + funcs2_lines(p, "  "@);
    let toks = seq!["BF2"@] + funcs2_lines(p, Seq::empty());
    lemma_funcs2_join(p);
    lemma_join_one_line("BF2"@);
    lemma_join_lines_append(seq!["BF2"@], funcs2_lines(p, "  "@));
    assert(bf2_text(p) =~= join_lines(ls));
    lemma_single_word("BF2"@);
    lemma_line_ok(Seq::empty(), "BF2"@);
    assert(Seq::<char>::empty() + "BF2"@ =~= "BF2"@);
    assert forall|k: int| 0 <= k < p.len() implies is_word(#[trigger] p[k].0) by {
        assert(bf2_function_writable(p[k]));
    }
    lemma_funcs2_lines_ok(p);
    lemma_lines_ok_append(seq!["BF2"@], seq!["BF2"@], funcs2_lines(p, "  "@), funcs2_lines(p, Seq::empty()));
    assert forall|k: int| 0 <= k < ls.len() implies no_newline(#[trigger] ls[k]) by {}
    lemma_segments_join(ls);
    assert forall|k: int| 0 <= k < ls.len() implies is_meaningful(#[trigger] trimmed(ls[k])) by {
        assert(trimmed(ls[k]) == toks[k]);
    }
    lemma_meaningful_all(ls, 1);
    let lines = meaningful_lines(bf2_text(p));
    assert(lines == Seq::new(ls.len(), |k: int| (1 + k, trimmed(ls[k]))));
    assert(lines[0].1 == "BF2"@);
    let rest = lines.drop_first();
    assert(texts(rest) =~= funcs2_lines(p, Seq::empty())) by {
        assert forall|j: int| 0 <= j < rest.len() implies texts(rest)[j] == funcs2_lines(
            p,
            Seq::empty(),
        )[j] by {
            assert(rest[j] == lines[j + 1]);
            assert(trimmed(ls[j + 1]) == toks[j + 1]);
        }
    }
    lemma_bf2_fold_start(rest);
    lemma_bf2_fold_funcs(p, rest);
}

/// Reading BF1 lines that succeeds depends on their texts only, not on their
/// numbers.
proof fn lemma_bf1_fold_texts(l1: Seq<(int, Seq<char>)>, l2: Seq<(int, Seq<char>)>)
    requires
        line_texts(l1) == line_texts(l2),
    ensures
        bf1_fold(l1) is Ok || bf1_fold(l2) is Ok ==> bf1_fold(l1) == bf1_fold(l2),
    decreases l1.len(),
{
    assert(l1.len() == line_texts(l1).len());
    assert(l2.len() == line_texts(l2).len());
    if l1.len() > 0 {
        let k = l1.len() - 1;
        assert(line_texts(l1.drop_last()) =~= line_texts(l2.drop_last())) by {
            assert forall|j: int| 0 <= j < k implies line_texts(l1.drop_last())[j] == line_texts(
                l2.drop_last(),
            )[j] by {
                assert(line_texts(l1)[j] == line_texts(l2)[j]);
            }
        }
        lemma_bf1_fold_texts(l1.drop_last(), l2.drop_last());
        assert(line_texts(l1)[k] == line_texts(l2)[k]);
        assert(l1.last().1 == l2.last().1);
    }
}

/// A blank line, or a comment line (one whose trimmed text starts with `#`),
/// inserted at any line boundary of BF1 text, before the header or after it,
/// changes nothing of what the text reads as, except the line numbers in its
/// errors: when either text reads as a program, both read as that program.
pub proof fn bf1_skipped_lines_ignored(a: Seq<char>, c: Seq<char>, b: Seq<char>)
    requires
        a.len() == 0 || a.last() == '\n',
        no_newline(c),
        trimmed(c).len() == 0 || trimmed(c)[0] == '#',
    ensures
        bf1_parse(a + c + "\n"@ + b) is Ok || bf1_parse(a + b) is Ok ==> bf1_parse(a + c + "\n"@ + b)
            == bf1_parse(a + b),
{
    skipped_line_changes_no_text(a, c, b);
    let l1 = meaningful_lines(a + c + "\n"@ + b);
    let l2 = meaningful_lines(a + b);
    assert(l1.len() == line_texts(l1).len());
    assert(l2.len() == line_texts(l2).len());
    if l1.len() > 0 {
        assert(l1[0].1 == line_texts(l1)[0]);
        assert(l2[0].1 == line_texts(l2)[0]);
        assert(line_texts(l1.drop_first()) =~= line_texts(l2.drop_first())) by {
            assert forall|j: int| 0 <= j < l1.len() - 1 implies line_texts(l1.drop_first())[j]
                == line_texts(l2.drop_first())[j] by {
                assert(line_texts(l1)[j + 1] == line_texts(l2)[j + 1]);
            }
        }
        lemma_bf1_fold_texts(l1.drop_first(), l2.drop_first());
    }
}

/// Reading BF2 text finds a function's entry block by identifier: the entry
/// check passes exactly when some block carries the entry identifier,
/// whatever the number of blocks and their order.
pub proof fn bf2_entry_found_by_identifier(blocks: Seq<BlockV>, entry: usize)
    ensures
        has_block(blocks, entry) <==> exists|i: int| 0 <= i < blocks.len() && blocks[i].0 == entry,
        forall|i: int| 0 <= i < blocks.len() && blocks[i].0 == entry ==> has_block(blocks, entry),
{
    if exists|i: int| 0 <= i < blocks.len() && blocks[i].0 == entry {
        let i = choose|i: int| 0 <= i < blocks.len() && blocks[i].0 == entry;
        assert(blocks[i].0 == entry);
    }
}

/// Reading BF2 lines that succeeds depends on their texts only, not on their
/// numbers.
proof fn lemma_bf2_fold_texts(l1: Seq<(int, Seq<char>)>, l2: Seq<(int, Seq<char>)>)
    requires
        line_texts(l1) == line_texts(l2),
    ensures
        bf2_fold(l1) is Ok || bf2_fold(l2) is Ok ==> bf2_fold(l1) == bf2_fold(l2),
    decreases l1.len(),
{
    assert(l1.len() == line_texts(l1).len());
    assert(l2.len() == line_texts(l2).len());
    if l1.len() > 0 {
        let k = l1.len() - 1;
        assert(line_texts(l1.drop_last()) =~= line_texts(l2.drop_last())) by {
            assert forall|j: int| 0 <= j < k implies line_texts(l1.drop_last())[j] == line_texts(
                l2.drop_last(),
            )[j] by {
                assert(line_texts(l1)[j] == line_texts(l2)[j]);
            }
        }
        lemma_bf2_fold_texts(l1.drop_last(), l2.drop_last());
        assert(line_texts(l1)[k] == line_texts(l2)[k]);
        assert(l1.last().1 == l2.last().1);
    }
}

/// A blank line, or a comment line (one whose trimmed text starts with `#`),
/// inserted at any line boundary of BF2 text changes nothing of what the
/// text reads as, except the line numbers in its errors: when either text
/// reads as a program, both read as that program.
pub proof fn bf2_skipped_lines_ignored(a: Seq<char>, c: Seq<char>, b: Seq<char>)
    requires
        a.len() == 0 || a.last() == '\n',
        no_newline(c),
        trimmed(c).len() == 0 || trimmed(c)[0] == '#',
    ensures
        bf2_parse(a + c + "\n"@ + b) is Ok || bf2_parse(a + b) is Ok ==> bf2_parse(a + c + "\n"@ + b)
            == bf2_parse(a + b),
{
    skipped_line_changes_no_text(a, c, b);
    let l1 = meaningful_lines(a + c + "\n"@ + b);
    let l2 = meaningful_lines(a + b);
    assert(l1.len() == line_texts(l1).len());
    assert(l2.len() == line_texts(l2).len());
    if l1.len() > 0 {
        assert(l1[0].1 == line_texts(l1)[0]);
        assert(l2[0].1 == line_texts(l2)[0]);
        assert(line_texts(l1.drop_first()) =~= line_texts(l2.drop_first())) by {
            assert forall|j: int| 0 <= j < l1.len() - 1 implies line_texts(l1.drop_first())[j]
                == line_texts(l2.drop_first())[j] by {
                assert(line_texts(l1)[j + 1] == line_texts(l2)[j + 1]);
            }
        }
        lemma_bf2_fold_texts(l1.drop_first(), l2.drop_first());
    }
}

} // verus!
