use vstd::prelude::*;
use crate::error::ErrorKind;
use crate::token::{Operator, Token, Value, Tok, lemma_toks_view_push, toks_view};

verus! {

pub open spec fn is_letter(c: char) -> bool {
    ('a' <= c && c <= 'z') || ('A' <= c && c <= 'Z')
}

pub open spec fn is_digit(c: char) -> bool {
    '0' <= c && c <= '9'
}

/// A character that may begin a word: a letter or the variable sigil.
pub open spec fn starts_word(c: char) -> bool {
    is_letter(c) || c == '$'
}

/// A character that may continue a word.
pub open spec fn in_word(c: char) -> bool {
    starts_word(c) || is_digit(c)
}

pub open spec fn is_space(c: char) -> bool {
    c == ' ' || c == '\t' || c == '\n' || c == '\r'
}

pub open spec fn digit_value(c: char) -> int {
    c as int - '0' as int
}

/// The operator that a character denotes.
pub open spec fn op_char(c: char) -> Option<Operator> {
    if c == '+' {
        Some(Operator::Plus)
    } else if c == '-' {
        Some(Operator::Minus)
    } else if c == '*' {
        Some(Operator::Mul)
    } else if c == '/' {
        Some(Operator::Div)
    } else if c == '%' {
        Some(Operator::Mod)
    } else if c == '&' {
        Some(Operator::And)
    } else if c == '|' {
        Some(Operator::Or)
    } else if c == '^' {
        Some(Operator::Xor)
    } else if c == '(' {
        Some(Operator::Open)
    } else if c == ')' {
        Some(Operator::Closed)
    } else {
        None
    }
}

/// The tokenizer's state: between tokens, or inside an integer, a word or a string.
pub enum Lex {
    Idle,
    Num(i32),
    Word(Seq<char>),
    Text(Seq<char>),
}

/// A delimiter after the pending tokens: a quote opens a string, whitespace separates,
/// an operator symbol becomes a token; anything else is malformed.
pub open spec fn lex_delim(c: char, pending: Seq<Tok>) -> Result<(Lex, Seq<Tok>), ErrorKind> {
    if c == '"' {
        Ok((Lex::Text(Seq::empty()), pending))
    } else if is_space(c) {
        Ok((Lex::Idle, pending))
    } else {
        match op_char(c) {
            Some(op) => Ok((Lex::Idle, pending.push(Tok::Op(op)))),
            None => Err(ErrorKind::SyntaxError),
        }
    }
}

/// One character of input: the next state and the tokens completed by it.
pub open spec fn lex_step(st: Lex, c: char) -> Result<(Lex, Seq<Tok>), ErrorKind> {
    match st {
        Lex::Text(s) => if c == '"' {
            Ok((Lex::Idle, seq![Tok::Str(s)]))
        } else {
            Ok((Lex::Text(s.push(c)), Seq::empty()))
        },
        Lex::Num(n) => if is_digit(c) {
            let v = n * 10 + digit_value(c);
            if v <= i32::MAX {
                Ok((Lex::Num(v as i32), Seq::empty()))
            } else {
                Err(ErrorKind::OverflowError)
            }
        } else if starts_word(c) {
            Err(ErrorKind::SyntaxError)
        } else {
            lex_delim(c, seq![Tok::Int(n)])
        },
        Lex::Word(w) => if in_word(c) {
            Ok((Lex::Word(w.push(c)), Seq::empty()))
        } else {
            lex_delim(c, seq![Tok::Word(w)])
        },
        Lex::Idle => if starts_word(c) {
            Ok((Lex::Word(seq![c]), Seq::empty()))
        } else if is_digit(c) {
            Ok((Lex::Num(digit_value(c) as i32), Seq::empty()))
        } else {
            lex_delim(c, Seq::empty())
        },
    }
}

/// The end of input flushes a pending integer or word; an open string is malformed.
pub open spec fn lex_end(st: Lex) -> Result<Seq<Tok>, ErrorKind> {
    match st {
        Lex::Idle => Ok(Seq::empty()),
        Lex::Num(n) => Ok(seq![Tok::Int(n)]),
        Lex::Word(w) => Ok(seq![Tok::Word(w)]),
        Lex::Text(_) => Err(ErrorKind::SyntaxError),
    }
}

/// Tokens emitted before a result, kept on success.
pub open spec fn prepend(p: Seq<Tok>, r: Result<Seq<Tok>, ErrorKind>) -> Result<Seq<Tok>, ErrorKind> {
    match r {
        Ok(t) => Ok(p + t),
        Err(e) => Err(e),
    }
}

/// Runs the tokenizer over the rest of the input from a given state.
pub open spec fn lex_from(cs: Seq<char>, st: Lex) -> Result<Seq<Tok>, ErrorKind>
    decreases cs.len(),
{
    if cs.len() == 0 {
        lex_end(st)
    } else {
        match lex_step(st, cs[0]) {
            Ok((st2, e)) => prepend(e, lex_from(cs.drop_first(), st2)),
            Err(x) => Err(x),
        }
    }
}

/// The tokens of a statement.
pub open spec fn tokenize_spec(cs: Seq<char>) -> Result<Seq<Tok>, ErrorKind> {
    lex_from(cs, Lex::Idle)
}

/// The executable tokenizer state; words and strings are kept as the index where
/// their characters begin.
enum Mode {
    Idle,
    Num(i32),
    Word(usize),
    Text(usize),
}

spec fn mode_view(m: Mode, cs: Seq<char>, i: int) -> Lex {
    match m {
        Mode::Idle => Lex::Idle,
        Mode::Num(n) => Lex::Num(n),
        Mode::Word(start) => Lex::Word(cs.subrange(start as int, i)),
        Mode::Text(start) => Lex::Text(cs.subrange(start as int, i)),
    }
}

spec fn mode_ok(m: Mode, i: int) -> bool {
    match m {
        Mode::Word(start) => start < i,
        Mode::Text(start) => start <= i,
        Mode::Num(n) => n >= 0,
        Mode::Idle => true,
    }
}

pub(crate) fn chars_of(s: &str) -> (v: Vec<char>)
    ensures
        v@ == s@,
{
    let mut v: Vec<char> = Vec::new();
    for c in it: s.chars()
        invariant
            v@ == it.seq().take(it.index() as int),
            it.seq() == s@,
    {
        v.push(c);
    }
    v
}

fn operator_of(c: char) -> (r: Option<Operator>)
    ensures
        r == op_char(c),
{
    match c {
        '+' => Some(Operator::Plus),
        '-' => Some(Operator::Minus),
        '*' => Some(Operator::Mul),
        '/' => Some(Operator::Div),
        '%' => Some(Operator::Mod),
        '&' => Some(Operator::And),
        '|' => Some(Operator::Or),
        '^' => Some(Operator::Xor),
        '(' => Some(Operator::Open),
        ')' => Some(Operator::Closed),
        _ => None,
    }
}

/// The text `line[start..end]` as an owned string.
fn slice_string(line: &str, start: usize, end: usize) -> (r: String)
    requires
        start <= end <= line@.len(),
    ensures
        r@ == line@.subrange(start as int, end as int),
{
    line.substring_char(start, end).to_string()
}

proof fn lemma_delim_pending(c: char, p: Seq<Tok>)
    ensures
        lex_delim(c, p) == match lex_delim(c, Seq::empty()) {
            Ok((st, e)) => Ok::<(Lex, Seq<Tok>), ErrorKind>((st, p + e)),
            Err(x) => Err(x),
        },
{
    assert(p + Seq::<Tok>::empty() =~= p);
    match op_char(c) {
        Some(op) => assert(p + Seq::<Tok>::empty().push(Tok::Op(op)) =~= p.push(Tok::Op(op))),
        None => {},
    }
}

/// Handles a delimiter character: a quote, whitespace or an operator symbol.
fn lex_delim_exec(c: char, i: usize, out: &mut Vec<Token>) -> (r: Result<Mode, ErrorKind>)
    requires
        i < usize::MAX,
    ensures
        match lex_delim(c, Seq::empty()) {
            Ok((st, e)) => r matches Ok(m) && toks_view(final(out)@) == toks_view(old(out)@) + e
                && ((m is Idle && st is Idle) || (m matches Mode::Text(start) && start == i + 1
                && st == Lex::Text(Seq::empty()))),
            Err(x) => r == Err::<Mode, ErrorKind>(x),
        },
{
    let ghost before = toks_view(out@);
    if c == '"' {
        assert(before + Seq::<Tok>::empty() =~= before);
        Ok(Mode::Text(i + 1))
    } else if c == ' ' || c == '\t' || c == '\n' || c == '\r' {
        assert(before + Seq::<Tok>::empty() =~= before);
        Ok(Mode::Idle)
    } else {
        match operator_of(c) {
            Some(op) => {
                let t = Token::Op(op);
                proof {
                    lemma_toks_view_push(out@, t);
                    assert(before.push(t@) =~= before + Seq::<Tok>::empty().push(t@));
                }
                out.push(t);
                Ok(Mode::Idle)
            },
            None => Err(ErrorKind::SyntaxError),
        }
    }
}

/// Feeds one character to the tokenizer.
fn lex_char(line: &str, c: char, i: usize, mode: Mode, out: &mut Vec<Token>) -> (r: Result<
    Mode,
    ErrorKind,
>)
    requires
        i < line@.len(),
        i < usize::MAX,
        line@[i as int] == c,
        mode_ok(mode, i as int),
    ensures
        match lex_step(mode_view(mode, line@, i as int), c) {
            Ok((st, e)) => r matches Ok(m) && mode_view(m, line@, i + 1) == st && mode_ok(m, i + 1)
                && toks_view(final(out)@) == toks_view(old(out)@) + e,
            Err(x) => r == Err::<Mode, ErrorKind>(x),
        },
{
    let ghost s = line@;
    let ghost before = toks_view(out@);
    let is_letter = ('a' <= c && c <= 'z') || ('A' <= c && c <= 'Z');
    let is_digit = '0' <= c && c <= '9';
    match mode {
        Mode::Text(start) => {
            if c == '"' {
                let text = slice_string(line, start, i);
                let t = Token::Val(Value::Str(text));
                proof {
                    lemma_toks_view_push(out@, t);
                    assert(before.push(t@) =~= before + seq![t@]);
                }
                out.push(t);
                Ok(Mode::Idle)
            } else {
                assert(s.subrange(start as int, i as int).push(c) =~= s.subrange(start as int, i + 1));
                assert(before + Seq::<Tok>::empty() =~= before);
                Ok(Mode::Text(start))
            }
        },
        Mode::Num(n) => {
            if is_digit {
                let d = (c as u32 - '0' as u32) as i32;
                if n > 214748364 || (n == 214748364 && d > 7) {
                    return Err(ErrorKind::OverflowError);
                }
                assert(before + Seq::<Tok>::empty() =~= before);
                Ok(Mode::Num(n * 10 + d))
            } else if is_letter || c == '$' {
                Err(ErrorKind::SyntaxError)
            } else {
                let t = Token::Val(Value::Int(n));
                proof {
                    lemma_toks_view_push(out@, t);
                    lemma_delim_pending(c, seq![t@]);
                }
                out.push(t);
                let r = lex_delim_exec(c, i, out);
                proof {
                    assert(s.subrange(i + 1, i + 1) =~= Seq::<char>::empty());
                    match lex_delim(c, Seq::empty()) {
                        Ok((st, e)) => assert(before.push(t@) + e =~= before + (seq![t@] + e)),
                        Err(x) => {},
                    }
                }
                r
            }
        },
        Mode::Word(start) => {
            if is_letter || c == '$' || is_digit {
                assert(s.subrange(start as int, i as int).push(c) =~= s.subrange(start as int, i + 1));
                assert(before + Seq::<Tok>::empty() =~= before);
                Ok(Mode::Word(start))
            } else {
                let w = slice_string(line, start, i);
                let t = Token::Val(Value::Word(w));
                proof {
                    lemma_toks_view_push(out@, t);
                    lemma_delim_pending(c, seq![t@]);
                }
                out.push(t);
                let r = lex_delim_exec(c, i, out);
                proof {
                    assert(s.subrange(i + 1, i + 1) =~= Seq::<char>::empty());
                    match lex_delim(c, Seq::empty()) {
                        Ok((st, e)) => assert(before.push(t@) + e =~= before + (seq![t@] + e)),
                        Err(x) => {},
                    }
                }
                r
            }
        },
        Mode::Idle => {
            if is_letter || c == '$' {
                assert(s.subrange(i as int, i + 1) =~= seq![c]);
                assert(before + Seq::<Tok>::empty() =~= before);
                Ok(Mode::Word(i))
            } else if is_digit {
                assert(before + Seq::<Tok>::empty() =~= before);
                Ok(Mode::Num((c as u32 - '0' as u32) as i32))
            } else {
                let r = lex_delim_exec(c, i, out);
                assert(s.subrange(i + 1, i + 1) =~= Seq::<char>::empty());
                r
            }
        },
    }
}

/// Splits one statement into tokens.
pub fn tokenize(line: &str) -> (r: Result<Vec<Token>, ErrorKind>)
    ensures
        match r {
            Ok(v) => tokenize_spec(line@) == Ok::<Seq<Tok>, ErrorKind>(toks_view(v@)),
            Err(e) => tokenize_spec(line@) == Err::<Seq<Tok>, ErrorKind>(e),
        },
{
    let cs = chars_of(line);
    let ghost s = line@;
    let mut out: Vec<Token> = Vec::new();
    let mut mode = Mode::Idle;
    let mut i: usize = 0;
    proof {
        assert(s.skip(0) =~= s);
        assert(toks_view(out@) =~= Seq::<Tok>::empty());
        match lex_from(s, Lex::Idle) {
            Ok(t) => assert(Seq::<Tok>::empty() + t =~= t),
            Err(x) => {},
        }
    }
    while i < cs.len()
        invariant
            cs@ == s,
            s == line@,
            i <= s.len(),
            mode_ok(mode, i as int),
            tokenize_spec(s) == prepend(
                toks_view(out@),
                lex_from(s.skip(i as int), mode_view(mode, s, i as int)),
            ),
        decreases s.len() - i,
    {
        let c = cs[i];
        let ghost st = mode_view(mode, s, i as int);
        let ghost before = toks_view(out@);
        proof {
            assert(s.skip(i as int).drop_first() =~= s.skip(i + 1));
            assert(s.skip(i as int)[0] == c);
        }
        match lex_char(line, c, i, mode, &mut out) {
            Ok(m) => {
                proof {
                    if let Ok((next, e)) = lex_step(st, c) {
                        assert(lex_from(s.skip(i as int), st) == prepend(
                            e,
                            lex_from(s.skip(i + 1), next),
                        ));
                        match lex_from(s.skip(i + 1), next) {
                            Ok(t) => assert(before + (e + t) =~= toks_view(out@) + t),
                            Err(x) => {},
                        }
                    }
                }
                mode = m;
            },
            Err(x) => return Err(x),
        }
        i = i + 1;
    }
    proof {
        assert(s.skip(i as int).len() == 0);
    }
    let ghost before = toks_view(out@);
    match mode {
        Mode::Idle => {
            assert(before + Seq::<Tok>::empty() =~= before);
        },
        Mode::Num(n) => {
            let t = Token::Val(Value::Int(n));
            proof {
                lemma_toks_view_push(out@, t);
                assert(before.push(t@) =~= before + seq![t@]);
            }
            out.push(t);
        },
        Mode::Word(start) => {
            let w = slice_string(line, start, i);
            let t = Token::Val(Value::Word(w));
            proof {
                lemma_toks_view_push(out@, t);
                assert(before.push(t@) =~= before + seq![t@]);
            }
            out.push(t);
        },
        Mode::Text(_) => return Err(ErrorKind::SyntaxError),
    }
    Ok(out)
}

} // verus!
