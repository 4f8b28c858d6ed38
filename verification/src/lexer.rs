//! The lexer: source characters to command tokens, comments dropped.
use vstd::prelude::*;

use crate::logging::{emitted_lines, LogLevel, Logger};
use crate::text::{chars_of, int_dec, push_str, push_usize, string_from_chars};

verus! {

/// A command of the language; `COMMENT` stands for any other character.
#[derive(Debug, PartialEq, Eq, Clone, Copy, Structural)]
pub enum Token {
    MOVR,
    MOVL,
    INC,
    DEC,
    OUTPUT,
    INPUT,
    JMPIN,
    JMPOUT,
    COMMENT,
}

/// A token with the line and column (both from 1) of its character.
#[derive(Debug, PartialEq, Eq, Clone, Copy, Structural)]
pub struct TokenWithPos {
    pub token: Token,
    pub line: usize,
    pub column: usize,
}

pub struct Lexer {}

/// The token of a character.
pub open spec fn token_of(c: char) -> Token {
    if c == '>' {
        Token::MOVR
    } else if c == '<' {
        Token::MOVL
    } else if c == '+' {
        Token::INC
    } else if c == '-' {
        Token::DEC
    } else if c == '.' {
        Token::OUTPUT
    } else if c == ',' {
        Token::INPUT
    } else if c == '[' {
        Token::JMPIN
    } else if c == ']' {
        Token::JMPOUT
    } else {
        Token::COMMENT
    }
}

/// The tokens of `s`, in order, without comments.
pub open spec fn lex(s: Seq<char>) -> Seq<Token>
    decreases s.len(),
{
    if s.len() == 0 {
        Seq::empty()
    } else if token_of(s.last()) == Token::COMMENT {
        lex(s.drop_last())
    } else {
        lex(s.drop_last()).push(token_of(s.last()))
    }
}

/// The line (from 1) of the character at index `i` of `s`.
pub open spec fn line_at(s: Seq<char>, i: int) -> int
    decreases i,
{
    if i <= 0 {
        1
    } else if s[i - 1] == '\n' {
        line_at(s, i - 1) + 1
    } else {
        line_at(s, i - 1)
    }
}

/// The column (from 1) of the character at index `i` of `s`.
pub open spec fn column_at(s: Seq<char>, i: int) -> int
    decreases i,
{
    if i <= 0 {
        1
    } else if s[i - 1] == '\n' {
        1
    } else {
        column_at(s, i - 1) + 1
    }
}

/// The tokens of the first `k` characters of `s`, with their positions.
pub open spec fn lex_positions(s: Seq<char>, k: int) -> Seq<(Token, int, int)>
    decreases k,
{
    if k <= 0 {
        Seq::empty()
    } else if token_of(s[k - 1]) == Token::COMMENT {
        lex_positions(s, k - 1)
    } else {
        lex_positions(s, k - 1).push((token_of(s[k - 1]), line_at(s, k - 1), column_at(s, k - 1)))
    }
}

pub open spec fn positioned_view(v: Seq<TokenWithPos>) -> Seq<(Token, int, int)> {
    v.map_values(|t: TokenWithPos| (t.token, t.line as int, t.column as int))
}

/// The lines that lexing `s` queues on a logger of threshold `t`: a start
/// record at level `Info` and a summary at level `Debug`.
pub open spec fn lexer_log(t: LogLevel, s: Seq<char>) -> Seq<Seq<char>> {
    emitted_lines(t, LogLevel::Info, "LEXER"@, None, "I_LEXER_START"@, "input_chars="@ + int_dec(
        s.len() as int,
    )) + emitted_lines(
        t,
        LogLevel::Debug,
        "LEXER"@,
        None,
        "D_LEXER_DONE"@,
        "tokens="@ + int_dec(lex(s).len() as int) + " filtered_comments="@ + int_dec(
            s.len() - lex(s).len(),
        ),
    )
}

fn classify(c: char) -> (t: Token)
    ensures
        t == token_of(c),
{
    match c {
        '>' => Token::MOVR,
        '<' => Token::MOVL,
        '+' => Token::INC,
        '-' => Token::DEC,
        '.' => Token::OUTPUT,
        ',' => Token::INPUT,
        '[' => Token::JMPIN,
        ']' => Token::JMPOUT,
        _ => Token::COMMENT,
    }
}

proof fn lemma_lex_len(s: Seq<char>)
    ensures
        lex(s).len() <= s.len(),
    decreases s.len(),
{
    if s.len() > 0 {
        lemma_lex_len(s.drop_last());
    }
}

impl Lexer {
    /// The tokens of `code`.
    pub fn run(code: &String) -> (r: Vec<Token>)
        ensures
            r@ == lex(code@),
    {
        Self::run_with_logger(code.as_str(), None)
    }

    /// The tokens of `code`; a start record and a summary are queued on `logger`.
    pub fn run_with_logger(code: &str, logger: Option<&mut Logger>) -> (r: Vec<Token>)
        ensures
            r@ == lex(code@),
            logger matches Some(l) ==> final(l).spec_threshold() == l.spec_threshold()
                && final(l).pending() == l.pending() + lexer_log(l.spec_threshold(), code@),
    {
        let chars = chars_of(code);
        let n = chars.len();
        let mut tokens: Vec<Token> = Vec::new();
        let mut filtered_comments: usize = 0;
        let mut i: usize = 0;
        assert(chars@.take(0) =~= Seq::<char>::empty());
        while i < n
            invariant
                i <= n,
                n == chars@.len(),
                tokens@ == lex(chars@.take(i as int)),
                filtered_comments + tokens@.len() == i,
            decreases n - i,
        {
            let tk = classify(chars[i]);
            proof {
                assert(chars@.take(i + 1).drop_last() =~= chars@.take(i as int));
                assert(chars@.take(i + 1).last() == chars@[i as int]);
            }
            if tk == Token::COMMENT {
                filtered_comments = filtered_comments + 1;
            } else {
                tokens.push(tk);
            }
            i = i + 1;
        }
        assert(chars@.take(n as int) =~= chars@);
        if let Some(l) = logger {
            let ghost t0 = l.spec_threshold();
            let ghost p0 = l.pending();
            let mut m1: Vec<char> = Vec::new();
            push_str(&mut m1, "input_chars=");
            push_usize(&mut m1, n);
            let s1 = string_from_chars(&m1);
            l.emit_raw(LogLevel::Info, "LEXER", "I_LEXER_START", s1.as_str());
            let mut m2: Vec<char> = Vec::new();
            push_str(&mut m2, "tokens=");
            push_usize(&mut m2, tokens.len());
            push_str(&mut m2, " filtered_comments=");
            push_usize(&mut m2, filtered_comments);
            let s2 = string_from_chars(&m2);
            l.emit_raw(LogLevel::Debug, "LEXER", "D_LEXER_DONE", s2.as_str());
            proof {
                reveal_strlit("LEXER");
            }
            assert(l.pending() =~= p0 + lexer_log(t0, code@));
        }
        tokens
    }

    /// The tokens of `code` with the line and column of each; the same records
    /// as `run_with_logger` are queued on `logger`.
    pub fn run_with_positions(code: &str, logger: Option<&mut Logger>) -> (r: Vec<TokenWithPos>)
        ensures
            positioned_view(r@) == lex_positions(code@, code@.len() as int),
            logger matches Some(l) ==> final(l).spec_threshold() == l.spec_threshold()
                && final(l).pending() == l.pending() + lexer_log(l.spec_threshold(), code@),
    {
        let chars = chars_of(code);
        let n = chars.len();
        let mut tokens: Vec<TokenWithPos> = Vec::new();
        let mut filtered_comments: usize = 0;
        let mut line: usize = 1;
        let mut column: usize = 1;
        let mut i: usize = 0;
        let ghost s = chars@;
        while i < n
            invariant
                i <= n,
                n == s.len(),
                s == chars@,
                positioned_view(tokens@) == lex_positions(s, i as int),
                i < n ==> line == line_at(s, i as int) && column == column_at(s, i as int),
                1 <= line <= i + 1,
                1 <= column <= i + 1,
                filtered_comments + tokens@.len() == i,
                tokens@.len() == lex(s.take(i as int)).len(),
            decreases n - i,
        {
            let ch = chars[i];
            let tk = classify(ch);
            proof {
                assert(s.take(i + 1).drop_last() =~= s.take(i as int));
                assert(s.take(i + 1).last() == s[i as int]);
            }
            if tk == Token::COMMENT {
                filtered_comments = filtered_comments + 1;
            } else {
                let ghost old_tokens = tokens@;
                tokens.push(TokenWithPos { token: tk, line, column });
                assert(positioned_view(tokens@) =~= positioned_view(old_tokens).push(
                    (tk, line as int, column as int),
                ));
            }
            if i + 1 < n {
                if ch == '\n' {
                    line = line + 1;
                    column = 1;
                } else {
                    column = column + 1;
                }
            }
            i = i + 1;
        }
        assert(s.take(n as int) =~= s);
        proof {
            lemma_lex_len(s);
        }
        if let Some(l) = logger {
            let ghost t0 = l.spec_threshold();
            let ghost p0 = l.pending();
            let mut m1: Vec<char> = Vec::new();
            push_str(&mut m1, "input_chars=");
            push_usize(&mut m1, n);
            let s1 = string_from_chars(&m1);
            l.emit_raw(LogLevel::Info, "LEXER", "I_LEXER_START", s1.as_str());
            let mut m2: Vec<char> = Vec::new();
            push_str(&mut m2, "tokens=");
            push_usize(&mut m2, tokens.len());
            push_str(&mut m2, " filtered_comments=");
            push_usize(&mut m2, filtered_comments);
            let s2 = string_from_chars(&m2);
            l.emit_raw(LogLevel::Debug, "LEXER", "D_LEXER_DONE", s2.as_str());
            assert(l.pending() =~= p0 + lexer_log(t0, code@));
        }
        tokens
    }
}

/// The positioned tokens, without their positions, are the tokens.
pub proof fn positions_match_tokens_law(s: Seq<char>, k: int)
    requires
        0 <= k <= s.len(),
    ensures
        lex_positions(s, k).map_values(|p: (Token, int, int)| p.0) == lex(s.take(k)),
    decreases k,
{
    if k > 0 {
        positions_match_tokens_law(s, k - 1);
        assert(s.take(k).drop_last() =~= s.take(k - 1));
        assert(s.take(k).last() == s[k - 1]);
        assert(lex_positions(s, k).map_values(|p: (Token, int, int)| p.0) =~= lex(s.take(k)));
    } else {
        assert(lex_positions(s, k).map_values(|p: (Token, int, int)| p.0) =~= lex(s.take(k)));
    }
}

/// Lexing keeps the eight command characters and drops every other one:
/// nothing lexes to no tokens, and one more character `c` at the end of the
/// source adds `>` as `MOVR`, `<` as `MOVL`, `+` as `INC`, `-` as `DEC`,
/// `.` as `OUTPUT`, `,` as `INPUT`, `[` as `JMPIN` and `]` as `JMPOUT`, and
/// adds nothing for any other character.
pub proof fn lex_keeps_commands_drops_comments(s: Seq<char>, c: char)
    ensures
        lex(Seq::<char>::empty()) == Seq::<Token>::empty(),
        c == '>' ==> lex(s.push(c)) == lex(s).push(Token::MOVR),
        c == '<' ==> lex(s.push(c)) == lex(s).push(Token::MOVL),
        c == '+' ==> lex(s.push(c)) == lex(s).push(Token::INC),
        c == '-' ==> lex(s.push(c)) == lex(s).push(Token::DEC),
        c == '.' ==> lex(s.push(c)) == lex(s).push(Token::OUTPUT),
        c == ',' ==> lex(s.push(c)) == lex(s).push(Token::INPUT),
        c == '[' ==> lex(s.push(c)) == lex(s).push(Token::JMPIN),
        c == ']' ==> lex(s.push(c)) == lex(s).push(Token::JMPOUT),
        c != '>' && c != '<' && c != '+' && c != '-' && c != '.' && c != ',' && c != '[' && c
            != ']' ==> lex(s.push(c)) == lex(s),
{
    assert(s.push(c).drop_last() =~= s);
    assert(s.push(c).last() == c);
}

/// The number of newline characters in `s`.
pub open spec fn newline_count(s: Seq<char>) -> nat
    decreases s.len(),
{
    if s.len() == 0 {
        0
    } else {
        newline_count(s.drop_last()) + if s.last() == '\n' {
            1nat
        } else {
            0nat
        }
    }
}

/// Only `'\n'` breaks lines: the line of index `i` of `s` is one more than
/// the number of newlines before it, and its column is one more than the
/// number of characters between it and the last newline before it (or the
/// start), none of which is a newline; every other character, `'\r'`
/// included, moves the column on by one.
pub proof fn positions_count_newlines(s: Seq<char>, i: int)
    requires
        0 <= i <= s.len(),
    ensures
        line_at(s, i) == 1 + newline_count(s.subrange(0, i)),
        1 <= column_at(s, i) <= i + 1,
        forall|k: int| i - column_at(s, i) + 1 <= k < i ==> s[k] != '\n',
        column_at(s, i) <= i ==> s[i - column_at(s, i)] == '\n',
    decreases i,
{
    if i > 0 {
        positions_count_newlines(s, i - 1);
        assert(s.subrange(0, i).drop_last() =~= s.subrange(0, i - 1));
        assert(s.subrange(0, i).last() == s[i - 1]);
    } else {
        assert(s.subrange(0, i) =~= Seq::<char>::empty());
    }
}

/// Each positioned token of the first `k` characters of `s` is the token of
/// a command character at some index `i` below `k`, with the line and column
/// of that index: the `j`-th positioned token is the one that lexing the
/// characters before `i` leaves `j` tokens for and lexing through `i` adds.
pub proof fn positioned_tokens_law(s: Seq<char>, k: int, j: int)
    requires
        0 <= k <= s.len(),
        0 <= j < lex_positions(s, k).len(),
    ensures
        exists|i: int|
            0 <= i < k && #[trigger] lex(s.take(i)).len() == j && lex(s.take(i + 1)) == lex(
                s.take(i),
            ).push(lex_positions(s, k)[j].0) && lex_positions(s, k)[j].1 == line_at(s, i)
                && lex_positions(s, k)[j].2 == column_at(s, i),
    decreases k,
{
    positions_match_tokens_law(s, k);
    positions_match_tokens_law(s, k - 1);
    let i = k - 1;
    assert(s.take(i + 1).drop_last() =~= s.take(i));
    assert(s.take(i + 1).last() == s[i]);
    let prev = lex_positions(s, k - 1);
    if j < prev.len() {
        positioned_tokens_law(s, k - 1, j);
        let w = choose|w: int|
            0 <= w < k - 1 && #[trigger] lex(s.take(w)).len() == j && lex(s.take(w + 1)) == lex(
                s.take(w),
            ).push(prev[j].0) && prev[j].1 == line_at(s, w) && prev[j].2 == column_at(s, w);
        assert(lex_positions(s, k)[j] == prev[j]);
        assert(lex(s.take(w)).len() == j);
    } else {
        assert(prev.map_values(|p: (Token, int, int)| p.0).len() == lex(s.take(i)).len());
        assert(lex(s.take(i)).len() == j);
        assert(lex_positions(s, k)[j] == (token_of(s[i]), line_at(s, i), column_at(s, i)));
    }
}

} // verus!
