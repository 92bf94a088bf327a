//! The programmer command mini-language:
//! `<id> [thru <id>] [@ (full|out|<percent>)]`, case-insensitive,
//! tokenized on whitespace, with a three-valued result.

use vstd::prelude::*;

use crate::engine::{percent_to_byte, Programmer};
use crate::ordmap::OrderedMap;

verus! {

/// One word of the mini-language.
#[derive(Clone, Copy, Debug, PartialEq, Eq)]
pub enum ProgWord {
    Num(u32),
    Thru,
    At,
    Full,
    Out,
    Percent(u8),
}

/// How a line was taken: applied, valid-but-waiting for more tokens, or
/// not programmer syntax at all (the caller should treat it otherwise).
#[derive(Clone, Copy, Debug, PartialEq, Eq)]
pub enum ApplyStatus {
    Applied,
    Incomplete,
    NotProgrammer,
}

/// Whitespace for tokenizing purposes.
pub open spec fn is_space(c: char) -> bool {
    c == ' ' || c == '\t' || c == '\n' || c == '\r'
}

/// Case-insensitive match of one character against a lower-case letter
/// of the language's keywords.
pub open spec fn eqi(c: char, l: char) -> bool {
    c == l || (l == 't' && c == 'T') || (l == 'h' && c == 'H') || (l == 'r' && c == 'R') || (l
        == 'u' && c == 'U') || (l == 'f' && c == 'F') || (l == 'l' && c == 'L') || (l == 'o' && c
        == 'O')
}

/// Splitting on whitespace, carrying the token built so far.
pub open spec fn tokenize_from(s: Seq<char>, cur: Seq<char>) -> Seq<Seq<char>>
    decreases s.len(),
{
    if s.len() == 0 {
        if cur.len() == 0 {
            Seq::empty()
        } else {
            seq![cur]
        }
    } else if is_space(s.first()) {
        if cur.len() == 0 {
            tokenize_from(s.drop_first(), Seq::empty())
        } else {
            seq![cur] + tokenize_from(s.drop_first(), Seq::empty())
        }
    } else {
        tokenize_from(s.drop_first(), cur.push(s.first()))
    }
}

/// The whitespace-separated tokens of a line.
pub open spec fn tokenize(s: Seq<char>) -> Seq<Seq<char>> {
    tokenize_from(s, Seq::empty())
}

pub open spec fn is_digit(c: char) -> bool {
    48 <= c as u32 <= 57
}

/// The numeric value of a digit string, most significant digit first.
pub open spec fn digits_val(tok: Seq<char>) -> int
    decreases tok.len(),
{
    if tok.len() == 0 {
        0
    } else {
        digits_val(tok.drop_last()) * 10 + (tok.last() as u32 - 48)
    }
}

pub open spec fn all_digits(tok: Seq<char>) -> bool {
    forall|i: int| 0 <= i < tok.len() ==> is_digit(#[trigger] tok[i])
}

/// A token that reads as a number fitting in `u32`.
pub open spec fn is_u32_num(tok: Seq<char>) -> bool {
    tok.len() >= 1 && all_digits(tok) && digits_val(tok) <= u32::MAX
}

pub open spec fn is_kw_thru(tok: Seq<char>) -> bool {
    tok.len() == 4 && eqi(tok[0], 't') && eqi(tok[1], 'h') && eqi(tok[2], 'r') && eqi(tok[3], 'u')
}

pub open spec fn is_kw_full(tok: Seq<char>) -> bool {
    tok.len() == 4 && eqi(tok[0], 'f') && eqi(tok[1], 'u') && eqi(tok[2], 'l') && eqi(tok[3], 'l')
}

pub open spec fn is_kw_out(tok: Seq<char>) -> bool {
    tok.len() == 3 && eqi(tok[0], 'o') && eqi(tok[1], 'u') && eqi(tok[2], 't')
}

pub open spec fn is_kw_at(tok: Seq<char>) -> bool {
    tok.len() == 1 && tok[0] == '@'
}

/// What one token means, if anything.
pub open spec fn classify(tok: Seq<char>) -> Option<ProgWord> {
    if is_kw_thru(tok) {
        Some(ProgWord::Thru)
    } else if is_kw_at(tok) {
        Some(ProgWord::At)
    } else if is_kw_full(tok) {
        Some(ProgWord::Full)
    } else if is_kw_out(tok) {
        Some(ProgWord::Out)
    } else if is_u32_num(tok) {
        Some(ProgWord::Num(digits_val(tok) as u32))
    } else {
        None
    }
}

/// A token list is programmer syntax when it is nonempty, starts with a
/// number, and every token is a recognized word.
pub open spec fn words_ok(toks: Seq<Seq<char>>) -> bool {
    &&& toks.len() > 0
    &&& is_u32_num(toks[0])
    &&& forall|i: int| 0 <= i < toks.len() ==> classify(#[trigger] toks[i]) is Some
}

/// The word list of a token list (meaningful under `words_ok`).
pub open spec fn words_of(toks: Seq<Seq<char>>) -> Seq<ProgWord> {
    toks.map_values(|t: Seq<char>| classify(t).unwrap())
}

/// What a parsed line does: its status, the selection it applies (as the
/// raw pair, either order), and the intensity percent it applies.
pub struct ParseOutcome {
    pub status: ApplyStatus,
    pub sel: Option<(u32, u32)>,
    pub pct: Option<u8>,
}

/// The grammar after the selection is known: an optional `@ level`.
pub open spec fn eval_level(w: Seq<ProgWord>, a: u32, b: u32, i: int) -> ParseOutcome {
    if i >= w.len() {
        ParseOutcome { status: ApplyStatus::Applied, sel: Some((a, b)), pct: None }
    } else if w[i] is At {
        if i + 1 >= w.len() {
            ParseOutcome { status: ApplyStatus::Incomplete, sel: Some((a, b)), pct: None }
        } else {
            match w[i + 1] {
                ProgWord::Full => ParseOutcome {
                    status: ApplyStatus::Applied,
                    sel: Some((a, b)),
                    pct: Some(100u8),
                },
                ProgWord::Out => ParseOutcome {
                    status: ApplyStatus::Applied,
                    sel: Some((a, b)),
                    pct: Some(0u8),
                },
                ProgWord::Num(n) => if n <= 100 {
                    ParseOutcome {
                        status: ApplyStatus::Applied,
                        sel: Some((a, b)),
                        pct: Some(n as u8),
                    }
                } else {
                    ParseOutcome { status: ApplyStatus::Incomplete, sel: Some((a, b)), pct: None }
                },
                _ => ParseOutcome {
                    status: ApplyStatus::Incomplete,
                    sel: Some((a, b)),
                    pct: None,
                },
            }
        }
    } else {
        ParseOutcome { status: ApplyStatus::Applied, sel: Some((a, b)), pct: None }
    }
}

/// The grammar over a word list that starts with a number.
pub open spec fn eval_words(w: Seq<ProgWord>) -> ParseOutcome {
    let a = w[0]->Num_0;
    if w.len() >= 2 && w[1] is Thru {
        if w.len() >= 3 && w[2] is Num {
            eval_level(w, a, w[2]->Num_0, 3)
        } else {
            // Dangling `thru`: wait for the end of the range, touch nothing.
            ParseOutcome { status: ApplyStatus::Incomplete, sel: None, pct: None }
        }
    } else {
        eval_level(w, a, a, 1)
    }
}

/// What a whole line does to the programmer.
pub open spec fn line_outcome(s: Seq<char>) -> ParseOutcome {
    if words_ok(tokenize(s)) {
        eval_words(words_of(tokenize(s)))
    } else {
        ParseOutcome { status: ApplyStatus::NotProgrammer, sel: None, pct: None }
    }
}

/// The selection a line applies: the inclusive range between the pair,
/// in either order.
pub open spec fn outcome_selection(oc: ParseOutcome, k: u64) -> bool {
    match oc.sel {
        Some((a, b)) => vstd::math::min(a as int, b as int) <= k <= vstd::math::max(
            a as int,
            b as int,
        ),
        None => false,
    }
}

/// Parser monotonicity: once a line applies a selection, the resulting
/// selection is determined by that line alone — two programmers that
/// each applied it end up with the same selection, whatever was selected
/// before.
pub proof fn lemma_parser_monotonic(line: Seq<char>, p1: Programmer, p2: Programmer)
    requires
        line_outcome(line).sel is Some,
        forall|k: u64| p1.selection().contains(k) <==> outcome_selection(line_outcome(line), k),
        forall|k: u64| p2.selection().contains(k) <==> outcome_selection(line_outcome(line), k),
    ensures
        p1.selection() == p2.selection(),
{
    assert(p1.selection() =~= p2.selection());
}

proof fn lemma_digits_val_nonneg(tok: Seq<char>)
    requires
        all_digits(tok),
    ensures
        digits_val(tok) >= 0,
    decreases tok.len(),
{
    if tok.len() > 0 {
        assert(all_digits(tok.drop_last())) by {
            assert(forall|i: int|
                0 <= i < tok.len() - 1 ==> #[trigger] tok.drop_last()[i] == tok[i]);
        }
        lemma_digits_val_nonneg(tok.drop_last());
    }
}

proof fn lemma_digits_val_mono(tok: Seq<char>, j: int)
    requires
        all_digits(tok),
        0 <= j <= tok.len(),
    ensures
        digits_val(tok.take(j)) <= digits_val(tok),
    decreases tok.len() - j,
{
    assert(all_digits(tok.take(j))) by {
        assert(forall|i: int| 0 <= i < j ==> #[trigger] tok.take(j)[i] == tok[i]);
    }
    if j == tok.len() {
        assert(tok.take(j) =~= tok);
    } else {
        assert(tok.take(j + 1).drop_last() =~= tok.take(j));
        assert(tok.take(j + 1).last() == tok[j]);
        lemma_digits_val_nonneg(tok.take(j));
        assert(digits_val(tok.take(j + 1)) == digits_val(tok.take(j)) * 10 + (tok[j] as u32 - 48));
        assert(digits_val(tok.take(j)) * 10 >= digits_val(tok.take(j))) by (nonlinear_arith)
            requires
                digits_val(tok.take(j)) >= 0,
        ;
        lemma_digits_val_mono(tok, j + 1);
    }
}

/// Classify one token.
fn classify_token(tok: &Vec<char>) -> (r: Option<ProgWord>)
    ensures
        r == classify(tok@),
{
    let n = tok.len();
    if n == 4 && (tok[0] == 't' || tok[0] == 'T') && (tok[1] == 'h' || tok[1] == 'H') && (tok[2]
        == 'r' || tok[2] == 'R') && (tok[3] == 'u' || tok[3] == 'U') {
        return Some(ProgWord::Thru);
    }
    if n == 1 && tok[0] == '@' {
        return Some(ProgWord::At);
    }
    if n == 4 && (tok[0] == 'f' || tok[0] == 'F') && (tok[1] == 'u' || tok[1] == 'U') && (tok[2]
        == 'l' || tok[2] == 'L') && (tok[3] == 'l' || tok[3] == 'L') {
        return Some(ProgWord::Full);
    }
    if n == 3 && (tok[0] == 'o' || tok[0] == 'O') && (tok[1] == 'u' || tok[1] == 'U') && (tok[2]
        == 't' || tok[2] == 'T') {
        return Some(ProgWord::Out);
    }
    if n == 0 {
        return None;
    }
    let mut val: u64 = 0;
    let mut j: usize = 0;
    while j < n
        invariant
            n == tok@.len(),
            n >= 1,
            j <= n,
            !is_kw_thru(tok@),
            !is_kw_at(tok@),
            !is_kw_full(tok@),
            !is_kw_out(tok@),
            all_digits(tok@.take(j as int)),
            val == digits_val(tok@.take(j as int)),
            val <= u32::MAX,
        decreases n - j,
    {
        let c = tok[j];
        let cv = c as u32;
        proof {
            assert(tok@.take(j as int + 1).drop_last() =~= tok@.take(j as int));
            assert(tok@.take(j as int + 1).last() == tok@[j as int]);
        }
        if cv < 48 || cv > 57 {
            return None;
        }
        let d = (cv - 48) as u64;
        let v2: u64 = val * 10 + d;
        if v2 > 0xffff_ffffu64 {
            proof {
                assert(digits_val(tok@.take(j as int + 1)) == val * 10 + d);
                if all_digits(tok@) {
                    lemma_digits_val_mono(tok@, j as int + 1);
                }
            }
            return None;
        }
        val = v2;
        j += 1;
    }
    proof {
        assert(tok@.take(n as int) =~= tok@);
    }
    Some(ProgWord::Num(val as u32))
}

/// The token views of a token vector.
pub open spec fn toks_view(ts: Seq<Vec<char>>) -> Seq<Seq<char>> {
    ts.map_values(|t: Vec<char>| t@)
}

/// Split a line into whitespace-separated tokens.
fn lex(line: &str) -> (r: Vec<Vec<char>>)
    ensures
        toks_view(r@) == tokenize(line@),
{
    let len = line.unicode_len();
    let mut tokens: Vec<Vec<char>> = Vec::new();
    let mut cur: Vec<char> = Vec::new();
    let mut i: usize = 0;
    proof {
        assert(line@.skip(0) =~= line@);
        assert(toks_view(tokens@) =~= Seq::<Seq<char>>::empty());
        assert(toks_view(tokens@) + tokenize_from(line@.skip(0), cur@) =~= tokenize_from(
            line@,
            cur@,
        ));
        assert(cur@ =~= Seq::<char>::empty());
    }
    while i < len
        invariant
            len == line@.len(),
            i <= len,
            tokenize(line@) == toks_view(tokens@) + tokenize_from(line@.skip(i as int), cur@),
        decreases len - i,
    {
        let c = line.get_char(i);
        let ghost rem = line@.skip(i as int);
        proof {
            assert(rem.first() == line@[i as int]);
            assert(rem.drop_first() =~= line@.skip(i as int + 1));
        }
        if c == ' ' || c == '\t' || c == '\n' || c == '\r' {
            if cur.len() > 0 {
                let ghost toks0 = tokens@;
                let ghost cur0 = cur@;
                tokens.push(cur);
                cur = Vec::new();
                proof {
                    assert(toks_view(tokens@) =~= toks_view(toks0) + seq![cur0]);
                    assert(toks_view(toks0) + (seq![cur0] + tokenize_from(
                        line@.skip(i as int + 1),
                        Seq::empty(),
                    )) =~= toks_view(tokens@) + tokenize_from(
                        line@.skip(i as int + 1),
                        Seq::empty(),
                    ));
                }
            }
        } else {
            cur.push(c);
        }
        proof {
            if cur@.len() == 0 {
                assert(cur@ =~= Seq::<char>::empty());
            }
        }
        i += 1;
    }
    proof {
        assert(line@.skip(len as int) =~= Seq::<char>::empty());
    }
    if cur.len() > 0 {
        let ghost toks0 = tokens@;
        let ghost cur0 = cur@;
        tokens.push(cur);
        proof {
            assert(toks_view(tokens@) =~= toks_view(toks0) + seq![cur0]);
        }
    } else {
        proof {
            assert(toks_view(tokens@) + Seq::<Seq<char>>::empty() =~= toks_view(tokens@));
        }
    }
    tokens
}

/// Turn the tokens into words; `None` means "not programmer syntax".
fn parse_words(tokens: &Vec<Vec<char>>) -> (r: Option<Vec<ProgWord>>)
    ensures
        match r {
            Some(w) => words_ok(toks_view(tokens@)) && w@ == words_of(toks_view(tokens@)),
            None => !words_ok(toks_view(tokens@)),
        },
{
    let ghost tv = toks_view(tokens@);
    let n = tokens.len();
    if n == 0 {
        return None;
    }
    match classify_token(&tokens[0]) {
        Some(ProgWord::Num(_)) => {},
        _ => {
            return None;
        },
    }
    let mut out: Vec<ProgWord> = Vec::new();
    let mut i: usize = 0;
    while i < n
        invariant
            tv == toks_view(tokens@),
            n == tokens@.len(),
            i <= n,
            out@.len() == i,
            is_u32_num(tv[0]),
            forall|j: int| 0 <= j < i ==> classify(#[trigger] tv[j]) is Some,
            forall|j: int| 0 <= j < i ==> out@[j] == classify(tv[j]).unwrap(),
        decreases n - i,
    {
        match classify_token(&tokens[i]) {
            Some(w) => {
                out.push(w);
            },
            None => {
                proof {
                    assert(tv[i as int] == tokens@[i as int]@);
                    assert(classify(tv[i as int]) is None);
                }
                return None;
            },
        }
        i += 1;
    }
    proof {
        assert(out@ =~= words_of(tv));
    }
    Some(out)
}

/// Try a line of programmer syntax against the programmer.
///
/// On `Applied`, the selection becomes exactly the line's range and a
/// trailing `@ level` sets the intensity. A dangling `thru` waits for
/// the end of the range and touches nothing; a dangling or unusable
/// level after `@` leaves the already-applied selection in place. A line
/// that is not programmer syntax changes nothing.
pub fn try_apply_programmer_line(line: &str, p: &mut Programmer) -> (st: ApplyStatus)
    requires
        old(p).wf(),
    ensures
        final(p).wf(),
        st == line_outcome(line@).status,
        line_outcome(line@).sel is None ==> final(p).selected == old(p).selected
            && final(p).intensity == old(p).intensity,
        line_outcome(line@).sel is Some ==> forall|k: u64|
            final(p).selection().contains(k) <==> outcome_selection(line_outcome(line@), k),
        line_outcome(line@).sel is Some ==> final(p).intensity == (match line_outcome(
            line@,
        ).pct {
            Some(pct) => Some(percent_to_byte(pct)),
            None => old(p).intensity,
        }),
        final(p).r == old(p).r,
        final(p).g == old(p).g,
        final(p).b == old(p).b,
{
    let tokens = lex(line);
    let words = match parse_words(&tokens) {
        Some(w) => w,
        None => {
            return ApplyStatus::NotProgrammer;
        },
    };
    let ghost w = words@;
    proof {
        assert(tokenize(line@) == toks_view(tokens@));
        assert(words_ok(toks_view(tokens@)));
        assert(line_outcome(line@) == eval_words(w));
    }
    let a = match words[0] {
        ProgWord::Num(n) => n,
        _ => {
            proof {
                assert(classify(toks_view(tokens@)[0]) == Some(
                    ProgWord::Num(digits_val(toks_view(tokens@)[0]) as u32),
                ));
                assert(false);
            }
            0
        },
    };
    let sel_a: u32;
    let sel_b: u32;
    let mut i: usize = 1;
    let is_thru = words.len() >= 2 && matches!(words[1], ProgWord::Thru);
    if is_thru {
        if words.len() >= 3 {
            match words[2] {
                ProgWord::Num(b) => {
                    sel_a = a;
                    sel_b = b;
                    i = 3;
                },
                _ => {
                    return ApplyStatus::Incomplete;
                },
            }
        } else {
            return ApplyStatus::Incomplete;
        }
    } else {
        sel_a = a;
        sel_b = a;
    }
    proof {
        assert(line_outcome(line@) == eval_level(w, sel_a, sel_b, i as int));
    }
    p.selected = OrderedMap::new();
    proof {
        assert(p.selection() =~= Set::<u64>::empty());
    }
    if sel_a == sel_b {
        p.select_one(sel_a);
        proof {
            assert(forall|k: u64|
                p.selection().contains(k) <==> Set::<u64>::empty().insert(sel_a as u64).contains(
                    k,
                ));
        }
    } else {
        p.select_range(sel_a, sel_b);
    }
    proof {
        assert(forall|k: u64|
            p.selection().contains(k) <==> outcome_selection(line_outcome(line@), k));
    }
    if i < words.len() {
        match words[i] {
            ProgWord::At => {
                if i + 1 < words.len() {
                    match words[i + 1] {
                        ProgWord::Full => {
                            p.set_intensity_percent(100);
                            ApplyStatus::Applied
                        },
                        ProgWord::Out => {
                            p.set_intensity_percent(0);
                            ApplyStatus::Applied
                        },
                        ProgWord::Num(n) => {
                            if n <= 100 {
                                p.set_intensity_percent(n as u8);
                                ApplyStatus::Applied
                            } else {
                                ApplyStatus::Incomplete
                            }
                        },
                        _ => ApplyStatus::Incomplete,
                    }
                } else {
                    ApplyStatus::Incomplete
                }
            },
            _ => ApplyStatus::Applied,
        }
    } else {
        ApplyStatus::Applied
    }
}

} // verus!
