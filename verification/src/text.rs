//! Character-level text utilities shared by the textual IR formats and the
//! diagnostics: whitespace, trimming, line and word splitting, and decimal
//! numbers, each stated over `Seq<char>`.
use vstd::prelude::*;

verus! {

// ---------------------------------------------------------------------------
// Whitespace
// ---------------------------------------------------------------------------

/// The Unicode `White_Space` property, which `str::trim`, `str::split_whitespace`
/// and `char::is_whitespace` are defined by.
pub open spec fn is_ws(c: char) -> bool {
    let u = c as u32;
    ||| (0x9 <= u && u <= 0xd)
    ||| u == 0x20
    ||| u == 0x85
    ||| u == 0xa0
    ||| u == 0x1680
    ||| (0x2000 <= u && u <= 0x200a)
    ||| u == 0x2028
    ||| u == 0x2029
    ||| u == 0x202f
    ||| u == 0x205f
    ||| u == 0x3000
}

pub fn is_whitespace(c: char) -> (b: bool)
    ensures
        b == is_ws(c),
{
    let u = c as u32;
    (0x9 <= u && u <= 0xd) || u == 0x20 || u == 0x85 || u == 0xa0 || u == 0x1680 || (0x2000 <= u
        && u <= 0x200a) || u == 0x2028 || u == 0x2029 || u == 0x202f || u == 0x205f || u == 0x3000
}

/// `s` with its leading whitespace removed.
pub open spec fn trim_left(s: Seq<char>) -> Seq<char>
    decreases s.len(),
{
    if s.len() > 0 && is_ws(s[0]) {
        trim_left(s.drop_first())
    } else {
        s
    }
}

/// `s` with its trailing whitespace removed.
pub open spec fn trim_right(s: Seq<char>) -> Seq<char>
    decreases s.len(),
{
    if s.len() > 0 && is_ws(s.last()) {
        trim_right(s.drop_last())
    } else {
        s
    }
}

/// What `str::trim` gives back: leading and trailing whitespace removed.
pub open spec fn trimmed(s: Seq<char>) -> Seq<char> {
    trim_right(trim_left(s))
}

proof fn lemma_trim_left_at(s: Seq<char>, a: int)
    requires
        0 <= a <= s.len(),
        forall|i: int| 0 <= i < a ==> is_ws(#[trigger] s[i]),
        a == s.len() || !is_ws(s[a]),
    ensures
        trim_left(s) == s.skip(a),
    decreases a,
{
    if a == 0 {
        assert(s.skip(0) =~= s);
    } else {
        let t = s.drop_first();
        assert forall|i: int| 0 <= i < a - 1 implies is_ws(#[trigger] t[i]) by {
            assert(t[i] == s[i + 1]);
        }
        lemma_trim_left_at(t, a - 1);
        assert(t.skip(a - 1) =~= s.skip(a));
    }
}

proof fn lemma_trim_right_at(s: Seq<char>, b: int)
    requires
        0 <= b <= s.len(),
        forall|i: int| b <= i < s.len() ==> is_ws(#[trigger] s[i]),
        b == 0 || !is_ws(s[b - 1]),
    ensures
        trim_right(s) == s.take(b),
    decreases s.len() - b,
{
    if b == s.len() {
        assert(s.take(b) =~= s);
    } else {
        let t = s.drop_last();
        assert forall|i: int| b <= i < t.len() implies is_ws(#[trigger] t[i]) by {
            assert(t[i] == s[i]);
        }
        lemma_trim_right_at(t, b);
        assert(t.take(b) =~= s.take(b));
    }
}

/// `v` without its trailing whitespace, as `str::trim_end` gives it.
pub fn trim_end_chars(v: &Vec<char>) -> (r: Vec<char>)
    ensures
        r@ == trim_right(v@),
{
    let n = v.len();
    let mut b: usize = n;
    while b > 0 && is_whitespace(v[b - 1])
        invariant
            b <= n,
            n == v@.len(),
            forall|i: int| b <= i < n ==> is_ws(#[trigger] v@[i]),
        decreases b,
    {
        b = b - 1;
    }
    proof {
        lemma_trim_right_at(v@, b as int);
        assert(v@.take(b as int) =~= v@.subrange(0, b as int));
    }
    subvec(v, 0, b)
}

/// The part of `v` between leading and trailing whitespace, as `str::trim` gives it.
pub fn trim_chars(v: &Vec<char>) -> (r: Vec<char>)
    ensures
        r@ == trimmed(v@),
{
    let n = v.len();
    let mut a: usize = 0;
    while a < n && is_whitespace(v[a])
        invariant
            a <= n,
            n == v@.len(),
            forall|i: int| 0 <= i < a ==> is_ws(#[trigger] v@[i]),
        decreases n - a,
    {
        a = a + 1;
    }
    proof {
        lemma_trim_left_at(v@, a as int);
    }
    let ghost t = v@.skip(a as int);
    let mut b: usize = n;
    while b > a && is_whitespace(v[b - 1])
        invariant
            a <= b <= n,
            n == v@.len(),
            t == v@.skip(a as int),
            forall|i: int| b <= i < n ==> is_ws(#[trigger] v@[i]),
        decreases b,
    {
        b = b - 1;
    }
    proof {
        assert forall|i: int| b - a <= i < t.len() implies is_ws(#[trigger] t[i]) by {
            assert(t[i] == v@[i + a]);
        }
        if b > a {
            assert(t[b - a - 1] == v@[b - 1]);
        }
        lemma_trim_right_at(t, b - a);
        assert(t.take(b - a) =~= v@.subrange(a as int, b as int));
    }
    subvec(v, a, b)
}

/// A copy of `v[lo..hi]`.
pub fn subvec(v: &Vec<char>, lo: usize, hi: usize) -> (r: Vec<char>)
    requires
        lo <= hi <= v@.len(),
    ensures
        r@ == v@.subrange(lo as int, hi as int),
{
    let mut r: Vec<char> = Vec::new();
    let mut i = lo;
    while i < hi
        invariant
            lo <= i <= hi,
            hi <= v@.len(),
            r@ == v@.subrange(lo as int, i as int),
        decreases hi - i,
    {
        r.push(v[i]);
        i = i + 1;
        assert(r@ =~= v@.subrange(lo as int, i as int));
    }
    r
}

// ---------------------------------------------------------------------------
// Words (`split_whitespace`)
// ---------------------------------------------------------------------------

/// The word being read (`cur`) closed off, if any.
pub open spec fn close_word(cur: Seq<char>) -> Seq<Seq<char>> {
    if cur.len() > 0 {
        seq![cur]
    } else {
        Seq::empty()
    }
}

/// The words of `s` read with `cur` already collected of the current word.
pub open spec fn words_from(s: Seq<char>, cur: Seq<char>) -> Seq<Seq<char>>
    decreases s.len(),
{
    if s.len() == 0 {
        close_word(cur)
    } else if is_ws(s[0]) {
        close_word(cur) + words_from(s.drop_first(), Seq::empty())
    } else {
        words_from(s.drop_first(), cur.push(s[0]))
    }
}

/// The maximal runs of non-whitespace characters of `s`, in order: what
/// `str::split_whitespace` yields.
pub open spec fn words(s: Seq<char>) -> Seq<Seq<char>> {
    words_from(s, Seq::empty())
}

pub open spec fn vecs_view(v: Seq<Vec<char>>) -> Seq<Seq<char>> {
    v.map_values(|w: Vec<char>| w@)
}

/// The whitespace-separated words of `v`.
pub fn split_words(v: &Vec<char>) -> (r: Vec<Vec<char>>)
    ensures
        vecs_view(r@) == words(v@),
{
    let n = v.len();
    let mut out: Vec<Vec<char>> = Vec::new();
    let mut cur: Vec<char> = Vec::new();
    let mut i: usize = 0;
    assert(v@.skip(0) =~= v@);
    assert(vecs_view(out@) =~= Seq::<Seq<char>>::empty());
    assert(cur@ =~= Seq::<char>::empty());
    while i < n
        invariant
            i <= n,
            n == v@.len(),
            words(v@) == vecs_view(out@) + words_from(v@.skip(i as int), cur@),
        decreases n - i,
    {
        let c = v[i];
        let ghost rest = v@.skip(i as int);
        assert(rest[0] == c);
        assert(rest.drop_first() =~= v@.skip(i + 1));
        if is_whitespace(c) {
            if cur.len() > 0 {
                let ghost old_out = out@;
                out.push(cur);
                assert(vecs_view(out@) =~= vecs_view(old_out) + close_word(cur@));
                cur = Vec::new();
            } else {
                assert(close_word(cur@) =~= Seq::<Seq<char>>::empty());
                assert(cur@ =~= Seq::<char>::empty());
            }
            proof {
                assert(vecs_view(out@) + (close_word(cur@) + words_from(v@.skip(i + 1), Seq::empty()))
                    =~= vecs_view(out@) + words_from(v@.skip(i + 1), Seq::empty())) by {
                    assert(cur@ =~= Seq::<char>::empty());
                }
            }
        } else {
            cur.push(c);
        }
        i = i + 1;
    }
    if cur.len() > 0 {
        let ghost old_out = out@;
        out.push(cur);
        assert(vecs_view(out@) =~= vecs_view(old_out) + close_word(cur@));
    } else {
        assert(vecs_view(out@) + close_word(cur@) =~= vecs_view(out@));
    }
    out
}

// ---------------------------------------------------------------------------
// Lines
// ---------------------------------------------------------------------------

/// The `'\n'`-separated segments of `s`, with `cur` already read of the first.
pub open spec fn segments_from(s: Seq<char>, cur: Seq<char>) -> Seq<Seq<char>>
    decreases s.len(),
{
    if s.len() == 0 {
        seq![cur]
    } else if s[0] == '\n' {
        seq![cur] + segments_from(s.drop_first(), Seq::empty())
    } else {
        segments_from(s.drop_first(), cur.push(s[0]))
    }
}

/// The `'\n'`-separated segments of `s`. Segment `i` is line `i + 1` of `s` as
/// `str::lines` numbers it (a final empty segment after a trailing newline is
/// not a line there, and a `'\r'` before a newline is whitespace).
pub open spec fn segments(s: Seq<char>) -> Seq<Seq<char>> {
    segments_from(s, Seq::empty())
}

/// Whether a trimmed line carries content: it is neither empty nor a `#` comment.
pub open spec fn is_meaningful(t: Seq<char>) -> bool {
    t.len() > 0 && t[0] != '#'
}

/// The numbered, trimmed, meaningful lines of `segs`, the first numbered `no`.
pub open spec fn meaningful_from(segs: Seq<Seq<char>>, no: int) -> Seq<(int, Seq<char>)>
    decreases segs.len(),
{
    if segs.len() == 0 {
        Seq::empty()
    } else {
        let t = trimmed(segs[0]);
        let rest = meaningful_from(segs.drop_first(), no + 1);
        if is_meaningful(t) {
            seq![(no, t)] + rest
        } else {
            rest
        }
    }
}

/// The lines of `s` (numbered from 1) that are neither blank nor comments,
/// trimmed.
pub open spec fn meaningful_lines(s: Seq<char>) -> Seq<(int, Seq<char>)> {
    meaningful_from(segments(s), 1)
}

/// A numbered line of a text.
pub struct Line {
    pub no: usize,
    pub text: Vec<char>,
}

impl View for Line {
    type V = (int, Seq<char>);

    open spec fn view(&self) -> (int, Seq<char>) {
        (self.no as int, self.text@)
    }
}

pub open spec fn lines_view(v: Seq<Line>) -> Seq<(int, Seq<char>)> {
    v.map_values(|l: Line| l@)
}

proof fn lemma_meaningful_unfold(seg: Seq<char>, rest: Seq<Seq<char>>, no: int)
    ensures
        meaningful_from(seq![seg] + rest, no) == (if is_meaningful(trimmed(seg)) {
            seq![(no, trimmed(seg))] + meaningful_from(rest, no + 1)
        } else {
            meaningful_from(rest, no + 1)
        }),
{
    assert((seq![seg] + rest).drop_first() =~= rest);
    assert((seq![seg] + rest)[0] == seg);
}

/// The numbered, trimmed lines of `v` that are neither blank nor `#` comments.
pub fn meaningful_lines_of(v: &Vec<char>) -> (r: Vec<Line>)
    ensures
        lines_view(r@) == meaningful_lines(v@),
        forall|i: int| 0 <= i < r@.len() ==> 1 <= #[trigger] r@[i].no <= v@.len(),
{
    let n = v.len();
    let mut out: Vec<Line> = Vec::new();
    let mut cur: Vec<char> = Vec::new();
    let mut no: usize = 1;
    let ghost mut gno: int = 1;
    let mut i: usize = 0;
    assert(v@.skip(0) =~= v@);
    assert(lines_view(out@) =~= Seq::<(int, Seq<char>)>::empty());
    assert(cur@ =~= Seq::<char>::empty());
    while i < n
        invariant
            i <= n,
            n == v@.len(),
            1 <= gno <= i + 1,
            no == gno || (i == n && cur@.len() == 0),
            1 <= no <= i + 1,
            gno + cur@.len() <= i + 1,
            meaningful_lines(v@) == lines_view(out@) + meaningful_from(
                segments_from(v@.skip(i as int), cur@),
                gno,
            ),
            forall|k: int| 0 <= k < out@.len() ==> 1 <= #[trigger] out@[k].no <= n,
        decreases n - i,
    {
        let c = v[i];
        let ghost rest = v@.skip(i as int);
        assert(rest[0] == c);
        assert(rest.drop_first() =~= v@.skip(i + 1));
        if c == '\n' {
            proof {
                lemma_meaningful_unfold(cur@, segments_from(v@.skip(i + 1), Seq::empty()), gno);
            }
            let t = trim_chars(&cur);
            if t.len() > 0 && t[0] != '#' {
                let ghost old_out = out@;
                out.push(Line { no, text: t });
                assert(lines_view(out@) =~= lines_view(old_out) + seq![(no as int, t@)]);
            }
            cur = Vec::new();
            proof {
                gno = gno + 1;
            }
            if i + 1 < n {
                no = no + 1;
            }
        } else {
            cur.push(c);
        }
        i = i + 1;
    }
    proof {
        lemma_meaningful_unfold(cur@, Seq::empty(), gno);
        assert(v@.skip(n as int) =~= Seq::<char>::empty());
        assert(seq![cur@] + Seq::<Seq<char>>::empty() =~= seq![cur@]);
    }
    let t = trim_chars(&cur);
    if t.len() > 0 && t[0] != '#' {
        proof {
            if cur@.len() == 0 {
                assert(trimmed(cur@) =~= Seq::<char>::empty());
            }
        }
        let ghost old_out = out@;
        out.push(Line { no, text: t });
        assert(lines_view(out@) =~= lines_view(old_out) + seq![(no as int, t@)]);
    } else {
        assert(lines_view(out@) + Seq::<(int, Seq<char>)>::empty() =~= lines_view(out@));
    }
    out
}

// ---------------------------------------------------------------------------
// Characters and strings
// ---------------------------------------------------------------------------

/// The characters of `s`, in order.
pub fn chars_of(s: &str) -> (r: Vec<char>)
    ensures
        r@ == s@,
{
    let mut v: Vec<char> = Vec::new();
    for c in it: s.chars()
        invariant
            v@ == it.history(),
            it.seq() == s@,
    {
        v.push(c);
    }
    v
}

/// Appends the characters of `s` to `out`.
pub fn push_str(out: &mut Vec<char>, s: &str)
    ensures
        final(out)@ == old(out)@ + s@,
{
    let v = chars_of(s);
    let n = v.len();
    let mut i: usize = 0;
    let ghost start = out@;
    while i < n
        invariant
            i <= n,
            n == v@.len(),
            v@ == s@,
            out@ == start + v@.take(i as int),
        decreases n - i,
    {
        out.push(v[i]);
        i = i + 1;
        assert(out@ =~= start + v@.take(i as int));
    }
    assert(v@.take(n as int) =~= v@);
}

/// Appends the characters `v` to `out`.
pub fn push_chars(out: &mut Vec<char>, v: &Vec<char>)
    ensures
        final(out)@ == old(out)@ + v@,
{
    let n = v.len();
    let mut i: usize = 0;
    let ghost start = out@;
    while i < n
        invariant
            i <= n,
            n == v@.len(),
            out@ == start + v@.take(i as int),
        decreases n - i,
    {
        out.push(v[i]);
        i = i + 1;
        assert(out@ =~= start + v@.take(i as int));
    }
    assert(v@.take(n as int) =~= v@);
}

/// Whether the characters `v` spell out `s`.
pub fn chars_eq_str(v: &Vec<char>, s: &str) -> (b: bool)
    ensures
        b == (v@ == s@),
{
    let w = chars_of(s);
    chars_eq(v, &w)
}

/// Whether `a` and `b` hold the same characters.
pub fn chars_eq(a: &Vec<char>, b: &Vec<char>) -> (r: bool)
    ensures
        r == (a@ == b@),
{
    if a.len() != b.len() {
        return false;
    }
    let n = a.len();
    let mut i: usize = 0;
    while i < n
        invariant
            i <= n,
            n == a@.len(),
            n == b@.len(),
            forall|k: int| 0 <= k < i ==> a@[k] == b@[k],
        decreases n - i,
    {
        if a[i] != b[i] {
            return false;
        }
        i = i + 1;
    }
    assert(a@ =~= b@);
    true
}

/// Whether `a` and `b` hold the same characters.
pub fn str_eq(a: &str, b: &str) -> (r: bool)
    ensures
        r == (a@ == b@),
{
    let va = chars_of(a);
    let vb = chars_of(b);
    chars_eq(&va, &vb)
}

/// Whether `v` begins with the characters of `prefix`.
pub fn starts_with_str(v: &Vec<char>, prefix: &str) -> (b: bool)
    ensures
        b == (prefix@.len() <= v@.len() && v@.take(prefix@.len() as int) == prefix@),
{
    let p = chars_of(prefix);
    if p.len() > v.len() {
        return false;
    }
    let head = subvec(v, 0, p.len());
    assert(head@ =~= v@.take(p@.len() as int));
    chars_eq(&head, &p)
}

/// A `String` holding the characters `v`.
#[verifier::external_body]
pub(crate) fn string_from_chars(v: &Vec<char>) -> (s: String)
    ensures
        s@ == v@,
{
    v.iter().collect()
}

// ---------------------------------------------------------------------------
// Decimal numbers
// ---------------------------------------------------------------------------

pub open spec fn is_digit(c: char) -> bool {
    '0' <= c && c <= '9'
}

pub open spec fn digit_value(c: char) -> int {
    (c as int) - ('0' as int)
}

pub open spec fn all_digits(s: Seq<char>) -> bool {
    forall|i: int| 0 <= i < s.len() ==> is_digit(#[trigger] s[i])
}

/// The number that the decimal digits `s` denote.
pub open spec fn digits_value(s: Seq<char>) -> nat
    decreases s.len(),
{
    if s.len() == 0 {
        0
    } else {
        (digits_value(s.drop_last()) * 10 + digit_value(s.last())) as nat
    }
}

/// The integer that `s` denotes in the syntax of `str::parse` for a signed
/// integer type, before any range check: an optional `+` or `-`, then one or
/// more ASCII digits and nothing else.
pub open spec fn signed_value(s: Seq<char>) -> Option<int> {
    if s.len() == 0 {
        None
    } else if s[0] == '+' || s[0] == '-' {
        let d = s.drop_first();
        if d.len() == 0 || !all_digits(d) {
            None
        } else if s[0] == '-' {
            Some(-(digits_value(d) as int))
        } else {
            Some(digits_value(d) as int)
        }
    } else if all_digits(s) {
        Some(digits_value(s) as int)
    } else {
        None
    }
}

/// The integer that `s` denotes in the syntax of `str::parse` for an unsigned
/// integer type, before any range check: an optional `+`, then one or more
/// ASCII digits and nothing else.
pub open spec fn unsigned_value(s: Seq<char>) -> Option<int> {
    if s.len() > 0 && s[0] == '-' {
        None
    } else {
        signed_value(s)
    }
}

/// What `s.parse::<i64>()` gives, as an `Option`.
pub open spec fn parse_i64_spec(s: Seq<char>) -> Option<i64> {
    match signed_value(s) {
        Some(v) => if i64::MIN <= v <= i64::MAX {
            Some(v as i64)
        } else {
            None
        },
        None => None,
    }
}

/// What `s.parse::<usize>()` gives, as an `Option`.
pub open spec fn parse_usize_spec(s: Seq<char>) -> Option<usize> {
    match unsigned_value(s) {
        Some(v) => if 0 <= v <= usize::MAX {
            Some(v as usize)
        } else {
            None
        },
        None => None,
    }
}

proof fn lemma_digits_value_take(s: Seq<char>, i: int)
    requires
        0 <= i < s.len(),
        is_digit(s[i]),
    ensures
        digits_value(s.take(i + 1)) == digits_value(s.take(i)) * 10 + digit_value(s[i]),
{
    assert(s.take(i + 1).drop_last() =~= s.take(i));
    assert(s.take(i + 1).last() == s[i]);
}

proof fn lemma_digits_value_monotone(s: Seq<char>, i: int)
    requires
        0 <= i <= s.len(),
        all_digits(s),
    ensures
        digits_value(s.take(i)) <= digits_value(s),
    decreases s.len() - i,
{
    if i == s.len() {
        assert(s.take(i) =~= s);
    } else {
        assert(is_digit(s[i]));
        lemma_digits_value_take(s, i);
        lemma_digits_value_monotone(s, i + 1);
    }
}

/// The value of the digits `v[lo..]` if it is at most `u64::MAX`.
fn digits_to_u64(v: &Vec<char>, lo: usize) -> (r: Option<u64>)
    requires
        lo <= v@.len(),
        all_digits(v@.skip(lo as int)),
    ensures
        r matches Some(x) ==> x == digits_value(v@.skip(lo as int)),
        r is None ==> digits_value(v@.skip(lo as int)) > u64::MAX,
{
    let ghost d = v@.skip(lo as int);
    let n = v.len();
    let mut acc: u64 = 0;
    let mut i = lo;
    assert(d.take(0) =~= Seq::<char>::empty());
    while i < n
        invariant
            lo <= i <= n,
            n == v@.len(),
            d == v@.skip(lo as int),
            all_digits(d),
            acc == digits_value(d.take(i - lo)),
        decreases n - i,
    {
        let c = v[i];
        assert(d[i - lo] == c);
        assert(is_digit(c));
        proof {
            lemma_digits_value_take(d, i - lo);
        }
        let dv = (c as u32 - '0' as u32) as u64;
        match acc.checked_mul(10) {
            Some(m) => match m.checked_add(dv) {
                Some(x) => {
                    acc = x;
                },
                None => {
                    proof {
                        lemma_digits_value_monotone(d, i - lo + 1);
                    }
                    return None;
                },
            },
            None => {
                proof {
                    lemma_digits_value_monotone(d, i - lo + 1);
                }
                return None;
            },
        }
        i = i + 1;
    }
    assert(d.take(n - lo) =~= d);
    Some(acc)
}

/// Parses `v` as `str::parse::<i64>` does.
pub fn parse_i64(v: &Vec<char>) -> (r: Option<i64>)
    ensures
        r == parse_i64_spec(v@),
{
    let n = v.len();
    if n == 0 {
        return None;
    }
    let neg = v[0] == '-';
    let lo: usize = if v[0] == '+' || v[0] == '-' { 1 } else { 0 };
    if lo == n {
        return None;
    }
    let mut i = lo;
    while i < n
        invariant
            lo <= i <= n,
            n == v@.len(),
            n > 0,
            lo == 1 <==> (v@[0] == '+' || v@[0] == '-'),
            lo == 0 || lo == 1,
            forall|k: int| lo <= k < i ==> is_digit(#[trigger] v@[k]),
        decreases n - i,
    {
        if !('0' <= v[i] && v[i] <= '9') {
            proof {
                assert(!is_digit(v@[i as int]));
                if lo == 1 {
                    assert(v@.drop_first()[i - 1] == v@[i as int]);
                    assert(!all_digits(v@.drop_first()));
                } else {
                    assert(!all_digits(v@));
                }
            }
            return None;
        }
        i = i + 1;
    }
    let ghost d = v@.skip(lo as int);
    assert(all_digits(d)) by {
        assert forall|k: int| 0 <= k < d.len() implies is_digit(#[trigger] d[k]) by {
            assert(d[k] == v@[k + lo]);
        }
    }
    assert(lo == 1 ==> d =~= v@.drop_first());
    assert(lo == 0 ==> d =~= v@);
    match digits_to_u64(v, lo) {
        None => None,
        Some(m) => {
            if neg {
                if m <= 0x8000_0000_0000_0000u64 {
                    Some((0i128 - m as i128) as i64)
                } else {
                    None
                }
            } else {
                if m <= 0x7fff_ffff_ffff_ffffu64 {
                    Some(m as i64)
                } else {
                    None
                }
            }
        },
    }
}

/// Parses `v` as `str::parse::<usize>` does.
pub fn parse_usize(v: &Vec<char>) -> (r: Option<usize>)
    ensures
        r == parse_usize_spec(v@),
{
    if v.len() > 0 && v[0] == '-' {
        return None;
    }
    match parse_i64_like_unsigned(v) {
        Some(m) => {
            if m <= usize::MAX as u64 {
                Some(m as usize)
            } else {
                None
            }
        },
        None => None,
    }
}

/// The value of `v` in unsigned `str::parse` syntax if it is at most
/// `u64::MAX`; `v` does not begin with `-`.
fn parse_i64_like_unsigned(v: &Vec<char>) -> (r: Option<u64>)
    requires
        !(v@.len() > 0 && v@[0] == '-'),
    ensures
        r matches Some(x) ==> unsigned_value(v@) == Some(x as int),
        r is None ==> (unsigned_value(v@) is None || unsigned_value(v@).unwrap() > u64::MAX),
{
    let n = v.len();
    if n == 0 {
        return None;
    }
    let lo: usize = if v[0] == '+' { 1 } else { 0 };
    if lo == n {
        return None;
    }
    let mut i = lo;
    while i < n
        invariant
            lo <= i <= n,
            n == v@.len(),
            n > 0,
            v@[0] != '-',
            lo == 1 <==> v@[0] == '+',
            lo == 0 || lo == 1,
            forall|k: int| lo <= k < i ==> is_digit(#[trigger] v@[k]),
        decreases n - i,
    {
        if !('0' <= v[i] && v[i] <= '9') {
            proof {
                assert(!is_digit(v@[i as int]));
                if lo == 1 {
                    assert(v@.drop_first()[i - 1] == v@[i as int]);
                    assert(!all_digits(v@.drop_first()));
                } else {
                    assert(!all_digits(v@));
                }
            }
            return None;
        }
        i = i + 1;
    }
    let ghost d = v@.skip(lo as int);
    assert(all_digits(d)) by {
        assert forall|k: int| 0 <= k < d.len() implies is_digit(#[trigger] d[k]) by {
            assert(d[k] == v@[k + lo]);
        }
    }
    assert(lo == 1 ==> d =~= v@.drop_first());
    assert(lo == 0 ==> d =~= v@);
    digits_to_u64(v, lo)
}

/// The decimal digit for `d`.
pub open spec fn digit_char(d: nat) -> char {
    (('0' as int) + d) as char
}

/// The decimal representation of `n`, without leading zeros.
pub open spec fn nat_dec(n: nat) -> Seq<char>
    decreases n,
{
    if n < 10 {
        seq![digit_char(n)]
    } else {
        nat_dec(n / 10).push(digit_char(n % 10))
    }
}

/// The decimal representation of `v`, with a `-` when it is negative: what
/// `format!("{}", v)` gives for an integer.
pub open spec fn int_dec(v: int) -> Seq<char> {
    if v < 0 {
        seq!['-'] + nat_dec((-v) as nat)
    } else {
        nat_dec(v as nat)
    }
}

/// Appends the decimal representation of `n` to `out`.
pub fn push_u128(out: &mut Vec<char>, n: u128)
    ensures
        final(out)@ == old(out)@ + nat_dec(n as nat),
    decreases n,
{
    if n >= 10 {
        push_u128(out, n / 10);
    }
    let d = (n % 10) as u32;
    let c = char_from_digit(d);
    out.push(c);
    proof {
        if n >= 10 {
            assert(nat_dec(n as nat) == nat_dec((n / 10) as nat).push(digit_char((n % 10) as nat)));
        }
    }
}

fn char_from_digit(d: u32) -> (c: char)
    requires
        d < 10,
    ensures
        c == digit_char(d as nat),
{
    if d == 0 { '0' }
    else if d == 1 { '1' }
    else if d == 2 { '2' }
    else if d == 3 { '3' }
    else if d == 4 { '4' }
    else if d == 5 { '5' }
    else if d == 6 { '6' }
    else if d == 7 { '7' }
    else if d == 8 { '8' }
    else { '9' }
}

/// Appends the decimal representation of `v` to `out`.
pub fn push_i128(out: &mut Vec<char>, v: i128)
    ensures
        final(out)@ == old(out)@ + int_dec(v as int),
{
    if v < 0 {
        out.push('-');
        let ghost mid = out@;
        let m: u128 = (0 - (v + 1)) as u128 + 1;
        push_u128(out, m);
        assert(out@ =~= old(out)@ + int_dec(v as int));
    } else {
        push_u128(out, v as u128);
    }
}

/// Appends the decimal representation of `v` to `out`.
pub fn push_i64(out: &mut Vec<char>, v: i64)
    ensures
        final(out)@ == old(out)@ + int_dec(v as int),
{
    push_i128(out, v as i128);
}

/// Appends the decimal representation of `v` to `out`.
pub fn push_usize(out: &mut Vec<char>, v: usize)
    ensures
        final(out)@ == old(out)@ + int_dec(v as int),
{
    push_u128(out, v as u128);
}


// ---------------------------------------------------------------------------
// Facts about written text read back
// ---------------------------------------------------------------------------

/// Whether `s` is one word: non-empty, with no whitespace.
pub open spec fn is_word(s: Seq<char>) -> bool {
    s.len() > 0 && forall|k: int| 0 <= k < s.len() ==> !is_ws(#[trigger] s[k])
}

/// The words `ws` separated by single spaces.
pub open spec fn unwords(ws: Seq<Seq<char>>) -> Seq<char>
    decreases ws.len(),
{
    if ws.len() == 0 {
        Seq::empty()
    } else if ws.len() == 1 {
        ws[0]
    } else {
        ws[0] + " "@ + unwords(ws.drop_first())
    }
}

/// The lines `ls`, each followed by a newline.
pub open spec fn join_lines(ls: Seq<Seq<char>>) -> Seq<char>
    decreases ls.len(),
{
    if ls.len() == 0 {
        Seq::empty()
    } else {
        join_lines(ls.drop_last()) + ls.last() + "\n"@
    }
}

/// Whether `s` holds no newline.
pub open spec fn no_newline(s: Seq<char>) -> bool {
    forall|k: int| 0 <= k < s.len() ==> s[k] != '\n'
}

pub proof fn lemma_join_lines_append(a: Seq<Seq<char>>, b: Seq<Seq<char>>)
    ensures
        join_lines(a + b) == join_lines(a) + join_lines(b),
    decreases b.len(),
{
    if b.len() == 0 {
        assert(a + b =~= a);
        assert(join_lines(a) + join_lines(b) =~= join_lines(a));
    } else {
        lemma_join_lines_append(a, b.drop_last());
        assert((a + b).drop_last() =~= a + b.drop_last());
        assert((a + b).last() == b.last());
        assert(join_lines(a + b) =~= join_lines(a) + join_lines(b));
    }
}

pub proof fn lemma_join_one_line(l: Seq<char>)
    ensures
        join_lines(seq![l]) == l + "\n"@,
{
    assert(seq![l].drop_last() =~= Seq::<Seq<char>>::empty());
    assert(seq![l].last() == l);
    assert(join_lines(Seq::<Seq<char>>::empty()) == Seq::<char>::empty());
    assert(join_lines(seq![l]) =~= l + "\n"@);
}

proof fn lemma_segments_line(l: Seq<char>, rest: Seq<char>, cur: Seq<char>)
    requires
        no_newline(l),
    ensures
        segments_from(l + "\n"@ + rest, cur) == seq![cur + l] + segments_from(rest, Seq::empty()),
    decreases l.len(),
{
    reveal_strlit("\n");
    let s = l + "\n"@ + rest;
    if l.len() == 0 {
        assert(s[0] == '\n');
        assert(s.drop_first() =~= rest);
        assert(cur + l =~= cur);
    } else {
        assert(s[0] == l[0]);
        assert(s.drop_first() =~= l.drop_first() + "\n"@ + rest);
        lemma_segments_line(l.drop_first(), rest, cur.push(l[0]));
        assert(cur.push(l[0]) + l.drop_first() =~= cur + l);
    }
}

/// Newline-free lines joined by newlines split back into those lines and a
/// final empty segment.
pub proof fn lemma_segments_join(ls: Seq<Seq<char>>)
    requires
        forall|k: int| 0 <= k < ls.len() ==> no_newline(#[trigger] ls[k]),
    ensures
        segments(join_lines(ls)) == ls.push(Seq::empty()),
    decreases ls.len(),
{
    if ls.len() == 0 {
        assert(ls.push(Seq::<char>::empty()) =~= seq![Seq::<char>::empty()]);
    } else {
        let t = ls.drop_first();
        lemma_join_lines_append(seq![ls[0]], t);
        assert(seq![ls[0]] + t =~= ls);
        lemma_join_one_line(ls[0]);
        assert(no_newline(ls[0]));
        lemma_segments_line(ls[0], join_lines(t), Seq::empty());
        assert(ls[0] + "\n"@ + join_lines(t) =~= join_lines(ls));
        assert forall|k: int| 0 <= k < t.len() implies no_newline(#[trigger] t[k]) by {
            assert(t[k] == ls[k + 1]);
        }
        lemma_segments_join(t);
        assert(Seq::<char>::empty() + ls[0] =~= ls[0]);
        assert(seq![ls[0]] + t.push(Seq::empty()) =~= ls.push(Seq::empty()));
    }
}

/// When every line of `ls` is meaningful once trimmed, the meaningful lines of
/// `ls` and a final empty segment are all of them, trimmed and numbered from
/// `no`.
pub proof fn lemma_meaningful_all(ls: Seq<Seq<char>>, no: int)
    requires
        forall|k: int| 0 <= k < ls.len() ==> is_meaningful(#[trigger] trimmed(ls[k])),
    ensures
        meaningful_from(ls.push(Seq::empty()), no) == Seq::new(
            ls.len(),
            |k: int| (no + k, trimmed(ls[k])),
        ),
    decreases ls.len(),
{
    let segs = ls.push(Seq::empty());
    if ls.len() == 0 {
        assert(segs.drop_first() =~= Seq::<Seq<char>>::empty());
        assert(segs[0] =~= Seq::<char>::empty());
        assert(trim_left(segs[0]) =~= Seq::<char>::empty());
        assert(trimmed(segs[0]) =~= Seq::<char>::empty());
        assert(!is_meaningful(trimmed(segs[0])));
        assert(meaningful_from(segs.drop_first(), no + 1) == Seq::<(int, Seq<char>)>::empty());
        assert(meaningful_from(segs, no) =~= Seq::new(ls.len(), |k: int| (no + k, trimmed(ls[k]))));
    } else {
        let t = ls.drop_first();
        assert(segs.drop_first() =~= t.push(Seq::empty()));
        assert(segs[0] == ls[0]);
        assert(is_meaningful(trimmed(ls[0])));
        assert forall|k: int| 0 <= k < t.len() implies is_meaningful(#[trigger] trimmed(t[k])) by {
            assert(t[k] == ls[k + 1]);
            assert(is_meaningful(trimmed(ls[k + 1])));
        }
        lemma_meaningful_all(t, no + 1);
        assert(seq![(no, trimmed(ls[0]))] + Seq::new(t.len(), |k: int| (no + 1 + k, trimmed(t[k])))
            =~= Seq::new(ls.len(), |k: int| (no + k, trimmed(ls[k]))));
    }
}

/// A line made of a run of spaces and a body that neither begins nor ends
/// with whitespace trims to the body.
pub proof fn lemma_trimmed_padded(pad: Seq<char>, body: Seq<char>)
    requires
        forall|k: int| 0 <= k < pad.len() ==> pad[k] == ' ',
        body.len() > 0,
        !is_ws(body[0]),
        !is_ws(body.last()),
    ensures
        trimmed(pad + body) == body,
{
    let s = pad + body;
    assert forall|i: int| 0 <= i < pad.len() implies is_ws(#[trigger] s[i]) by {
        assert(s[i] == pad[i]);
    }
    assert(s[pad.len() as int] == body[0]);
    lemma_trim_left_at(s, pad.len() as int);
    assert(s.skip(pad.len() as int) =~= body);
    lemma_trim_right_at(body, body.len() as int);
    assert(body.take(body.len() as int) =~= body);
}

proof fn lemma_words_from_word(x: Seq<char>, rest: Seq<char>, cur: Seq<char>)
    requires
        forall|k: int| 0 <= k < x.len() ==> !is_ws(#[trigger] x[k]),
    ensures
        words_from(x + rest, cur) == words_from(rest, cur + x),
    decreases x.len(),
{
    if x.len() == 0 {
        assert(x + rest =~= rest);
        assert(cur + x =~= cur);
    } else {
        let s = x + rest;
        assert(s[0] == x[0]);
        assert(!is_ws(x[0]));
        assert(s.drop_first() =~= x.drop_first() + rest);
        assert forall|k: int| 0 <= k < x.drop_first().len() implies !is_ws(#[trigger] x.drop_first()[k]) by {
            assert(x.drop_first()[k] == x[k + 1]);
        }
        lemma_words_from_word(x.drop_first(), rest, cur.push(x[0]));
        assert(cur.push(x[0]) + x.drop_first() =~= cur + x);
    }
}

/// Words separated by single spaces split back into those words.
pub proof fn lemma_words_unwords(ws: Seq<Seq<char>>)
    requires
        forall|k: int| 0 <= k < ws.len() ==> is_word(#[trigger] ws[k]),
    ensures
        words(unwords(ws)) == ws,
    decreases ws.len(),
{
    reveal_strlit(" ");
    if ws.len() == 0 {
        assert(words(Seq::<char>::empty()) =~= Seq::<Seq<char>>::empty());
        assert(ws =~= Seq::<Seq<char>>::empty());
    } else if ws.len() == 1 {
        assert(is_word(ws[0]));
        lemma_words_from_word(ws[0], Seq::empty(), Seq::empty());
        assert(ws[0] + Seq::<char>::empty() =~= ws[0]);
        assert(Seq::<char>::empty() + ws[0] =~= ws[0]);
        assert(ws =~= seq![ws[0]]);
    } else {
        let t = ws.drop_first();
        assert(is_word(ws[0]));
        let rest = " "@ + unwords(t);
        lemma_words_from_word(ws[0], rest, Seq::empty());
        assert(ws[0] + " "@ + unwords(t) =~= ws[0] + rest);
        assert(Seq::<char>::empty() + ws[0] =~= ws[0]);
        assert(rest[0] == ' ');
        assert(is_ws(' '));
        assert(rest.drop_first() =~= unwords(t));
        assert forall|k: int| 0 <= k < t.len() implies is_word(#[trigger] t[k]) by {
            assert(t[k] == ws[k + 1]);
        }
        lemma_words_unwords(t);
        assert(close_word(ws[0]) == seq![ws[0]]);
        assert(seq![ws[0]] + t =~= ws);
    }
}

proof fn lemma_digit_char(d: nat)
    requires
        d < 10,
    ensures
        is_digit(digit_char(d)),
        digit_value(digit_char(d)) == d,
        !is_ws(digit_char(d)),
        digit_char(d) != '-',
        digit_char(d) != '+',
        digit_char(d) != '#',
{
}

proof fn lemma_nat_dec(n: nat)
    ensures
        nat_dec(n).len() > 0,
        all_digits(nat_dec(n)),
        digits_value(nat_dec(n)) == n,
        forall|k: int| 0 <= k < nat_dec(n).len() ==> !is_ws(#[trigger] nat_dec(n)[k]) && nat_dec(n)[k]
            != '-' && nat_dec(n)[k] != '+' && nat_dec(n)[k] != '#',
    decreases n,
{
    if n >= 10 {
        lemma_nat_dec(n / 10);
        let s = nat_dec(n / 10);
        let c = digit_char(n % 10);
        lemma_digit_char(n % 10);
        assert(nat_dec(n) == s.push(c));
        assert(s.push(c).drop_last() =~= s);
        vstd::arithmetic::div_mod::lemma_fundamental_div_mod(n as int, 10);
        assert(s.push(c).last() == c);
        assert forall|k: int| 0 <= k < s.push(c).len() implies is_digit(#[trigger] s.push(c)[k]) by {
            if k < s.len() {
                assert(s.push(c)[k] == s[k]);
            }
        }
        assert forall|k: int| 0 <= k < s.push(c).len() implies !is_ws(#[trigger] s.push(c)[k])
            && s.push(c)[k] != '-' && s.push(c)[k] != '+' && s.push(c)[k] != '#' by {
            if k < s.len() {
                assert(s.push(c)[k] == s[k]);
            }
        }
    } else {
        lemma_digit_char(n);
        assert(nat_dec(n) == seq![digit_char(n)]);
        assert(seq![digit_char(n)].drop_last() =~= Seq::<char>::empty());
        assert(seq![digit_char(n)].last() == digit_char(n));
        assert(digits_value(Seq::<char>::empty()) == 0);
    }
}

/// The decimal text of an `i64` is one word that `str::parse::<i64>` reads
/// back as the same number.
pub proof fn lemma_i64_dec(v: i64)
    ensures
        is_word(int_dec(v as int)),
        parse_i64_spec(int_dec(v as int)) == Some(v),
        int_dec(v as int)[0] != '#',
{
    if v < 0 {
        let m: nat = (-v) as nat;
        lemma_nat_dec(m);
        let s = int_dec(v as int);
        assert(s == seq!['-'] + nat_dec(m));
        assert(s.drop_first() =~= nat_dec(m));
        assert(s[0] == '-');
        assert forall|k: int| 0 <= k < s.len() implies !is_ws(#[trigger] s[k]) by {
            if k > 0 {
                assert(s[k] == nat_dec(m)[k - 1]);
            }
        }
    } else {
        lemma_nat_dec(v as nat);
        let s = nat_dec(v as nat);
        assert(s[0] != '-' && s[0] != '+');
    }
}

/// The decimal text of a `usize` is one word that `str::parse::<usize>`
/// reads back as the same number.
pub proof fn lemma_usize_dec(v: usize)
    ensures
        is_word(int_dec(v as int)),
        parse_usize_spec(int_dec(v as int)) == Some(v),
        int_dec(v as int)[0] != '#',
{
    lemma_nat_dec(v as nat);
    let s = nat_dec(v as nat);
    assert(s[0] != '-' && s[0] != '+');
}

/// The texts of numbered lines, without their numbers.
pub open spec fn line_texts(ls: Seq<(int, Seq<char>)>) -> Seq<Seq<char>> {
    ls.map_values(|l: (int, Seq<char>)| l.1)
}

proof fn lemma_segments_nonempty(s: Seq<char>, cur: Seq<char>)
    ensures
        segments_from(s, cur).len() >= 1,
    decreases s.len(),
{
    if s.len() > 0 {
        if s[0] == '\n' {
            lemma_segments_nonempty(s.drop_first(), Seq::empty());
        } else {
            lemma_segments_nonempty(s.drop_first(), cur.push(s[0]));
        }
    }
}

/// The segments of `a + b`, where `a` ends with a newline, are those of `a`
/// without its final empty one, then those of `b`.
proof fn lemma_segments_split(a: Seq<char>, b: Seq<char>, cur: Seq<char>)
    requires
        a.len() > 0,
        a.last() == '\n',
    ensures
        segments_from(a + b, cur) == segments_from(a, cur).drop_last() + segments(b),
    decreases a.len(),
{
    let ab = a + b;
    assert(ab[0] == a[0]);
    assert(ab.drop_first() =~= a.drop_first() + b);
    if a[0] == '\n' {
        if a.len() == 1 {
            assert(a.drop_first() =~= Seq::<char>::empty());
            assert(a.drop_first() + b =~= b);
            assert(segments_from(a.drop_first(), Seq::empty()) == seq![Seq::<char>::empty()]);
            assert((seq![cur] + seq![Seq::<char>::empty()]).drop_last() =~= seq![cur]);
        } else {
            lemma_segments_split(a.drop_first(), b, Seq::empty());
            lemma_segments_nonempty(a.drop_first(), Seq::empty());
            let t = segments_from(a.drop_first(), Seq::empty());
            assert((seq![cur] + t).drop_last() =~= seq![cur] + t.drop_last());
            assert(seq![cur] + (t.drop_last() + segments(b)) =~= (seq![cur] + t.drop_last())
                + segments(b));
        }
    } else {
        assert(a.drop_first().last() == a.last());
        lemma_segments_split(a.drop_first(), b, cur.push(a[0]));
    }
}

proof fn lemma_meaningful_concat(x: Seq<Seq<char>>, y: Seq<Seq<char>>, no: int)
    ensures
        meaningful_from(x + y, no) == meaningful_from(x, no) + meaningful_from(y, no + x.len()),
    decreases x.len(),
{
    if x.len() == 0 {
        assert(x + y =~= y);
        assert(meaningful_from(x, no) + meaningful_from(y, no) =~= meaningful_from(y, no));
    } else {
        assert((x + y)[0] == x[0]);
        assert((x + y).drop_first() =~= x.drop_first() + y);
        lemma_meaningful_concat(x.drop_first(), y, no + 1);
        let m = meaningful_from(x.drop_first(), no + 1);
        let n = meaningful_from(y, no + x.len());
        assert(seq![(no, trimmed(x[0]))] + (m + n) =~= (seq![(no, trimmed(x[0]))] + m) + n);
    }
}

proof fn lemma_meaningful_texts_renumbered(y: Seq<Seq<char>>, n: int, m: int)
    ensures
        line_texts(meaningful_from(y, n)) == line_texts(meaningful_from(y, m)),
    decreases y.len(),
{
    if y.len() > 0 {
        lemma_meaningful_texts_renumbered(y.drop_first(), n + 1, m + 1);
        let t = trimmed(y[0]);
        let r1 = meaningful_from(y.drop_first(), n + 1);
        let r2 = meaningful_from(y.drop_first(), m + 1);
        if is_meaningful(t) {
            assert(line_texts(seq![(n, t)] + r1) =~= seq![t] + line_texts(r1));
            assert(line_texts(seq![(m, t)] + r2) =~= seq![t] + line_texts(r2));
        }
    } else {
        assert(line_texts(meaningful_from(y, n)) =~= line_texts(meaningful_from(y, m)));
    }
}

/// A blank line, or a comment line (one whose trimmed text starts with `#`),
/// inserted at any line boundary of a text changes nothing of its meaningful
/// lines but their numbers: the texts of the meaningful lines are the same.
pub proof fn skipped_line_changes_no_text(a: Seq<char>, c: Seq<char>, b: Seq<char>)
    requires
        a.len() == 0 || a.last() == '\n',
        no_newline(c),
        trimmed(c).len() == 0 || trimmed(c)[0] == '#',
    ensures
        line_texts(meaningful_lines(a + c + "\n"@ + b)) == line_texts(meaningful_lines(a + b)),
{
    reveal_strlit("\n");
    let x = c + "\n"@ + b;
    assert(a + c + "\n"@ + b =~= a + x);
    lemma_segments_line(c, b, Seq::empty());
    assert(Seq::<char>::empty() + c =~= c);
    let sb = segments(b);
    assert(segments(x) == seq![c] + sb);
    let aa: Seq<Seq<char>> = if a.len() == 0 {
        Seq::empty()
    } else {
        segments(a).drop_last()
    };
    if a.len() == 0 {
        assert(a + x =~= x);
        assert(a + b =~= b);
        assert(segments(a + x) =~= aa + segments(x));
        assert(segments(a + b) =~= aa + sb);
    } else {
        lemma_segments_split(a, x, Seq::empty());
        lemma_segments_split(a, b, Seq::empty());
    }
    let n = aa.len() as int;
    assert(aa + (seq![c] + sb) =~= (aa + seq![c]) + sb);
    lemma_meaningful_concat(aa + seq![c], sb, 1);
    lemma_meaningful_concat(aa, seq![c], 1);
    lemma_meaningful_unfold(c, Seq::empty(), 1 + n);
    assert(seq![c] + Seq::<Seq<char>>::empty() =~= seq![c]);
    assert(meaningful_from(Seq::<Seq<char>>::empty(), 2 + n) == Seq::<(int, Seq<char>)>::empty());
    assert(!is_meaningful(trimmed(c)));
    assert(meaningful_from(aa, 1) + Seq::<(int, Seq<char>)>::empty() =~= meaningful_from(aa, 1));
    lemma_meaningful_concat(aa, sb, 1);
    lemma_meaningful_texts_renumbered(sb, 2 + n, 1 + n);
    let p = meaningful_from(aa, 1);
    assert(line_texts(p + meaningful_from(sb, 2 + n)) =~= line_texts(p) + line_texts(
        meaningful_from(sb, 2 + n),
    ));
    assert(line_texts(p + meaningful_from(sb, 1 + n)) =~= line_texts(p) + line_texts(
        meaningful_from(sb, 1 + n),
    ));
}

} // verus!
