use vstd::prelude::*;
use crate::error::ErrorKind;
use crate::token::{
    Keyword, Token, Value, Tok, lemma_toks_view_push, tok_keyword, token_keyword, toks_view,
};

verus! {

/// One compiled, directly executable statement.
#[derive(Debug)]
pub enum Instruction {
    /// Writes the value of a postfix expression.
    Print(Vec<Token>),
    /// Writes a line break.
    Newline,
    /// Jumps to a label.
    Goto(String),
    /// Runs the body when the condition evaluates to zero.
    BranchIfZero(Vec<Token>, Box<Instruction>),
    /// Runs the body when the condition evaluates to a positive number.
    BranchIfNonZero(Vec<Token>, Box<Instruction>),
    /// Marks where a label was declared; has no effect.
    Label,
    /// Stores the value of a postfix expression in a variable (named without its sigil).
    Mutate(String, Vec<Token>),
    /// Stops the run.
    End,
}

/// The model of an instruction.
pub enum InstrV {
    Print(Seq<Tok>),
    Newline,
    Goto(Seq<char>),
    BranchIfZero(Seq<Tok>, Box<InstrV>),
    BranchIfNonZero(Seq<Tok>, Box<InstrV>),
    Label,
    Mutate(Seq<char>, Seq<Tok>),
    End,
}

pub open spec fn instr_view(i: Instruction) -> InstrV
    decreases i,
{
    match i {
        Instruction::Print(e) => InstrV::Print(toks_view(e@)),
        Instruction::Newline => InstrV::Newline,
        Instruction::Goto(l) => InstrV::Goto(l@),
        Instruction::BranchIfZero(e, b) => InstrV::BranchIfZero(
            toks_view(e@),
            Box::new(instr_view(*b)),
        ),
        Instruction::BranchIfNonZero(e, b) => InstrV::BranchIfNonZero(
            toks_view(e@),
            Box::new(instr_view(*b)),
        ),
        Instruction::Label => InstrV::Label,
        Instruction::Mutate(n, e) => InstrV::Mutate(n@, toks_view(e@)),
        Instruction::End => InstrV::End,
    }
}

impl View for Instruction {
    type V = InstrV;

    open spec fn view(&self) -> InstrV {
        instr_view(*self)
    }
}

/// The first position at or after `from` that holds a keyword.
pub open spec fn first_keyword(toks: Seq<Tok>, from: int) -> Option<int>
    decreases toks.len() - from,
{
    if from < 0 || from >= toks.len() {
        None
    } else if tok_keyword(toks[from]) is Some {
        Some(from)
    } else {
        first_keyword(toks, from + 1)
    }
}

/// The instruction led by the keyword at position `p` of a statement's postfix tokens.
/// `PRINT` takes the rest of the statement as its expression, `GOTO` one label word,
/// `NEWL` and `END` nothing; `BZ` and `BG` take the tokens up to the next keyword as
/// their condition and the instruction that keyword leads as their body.
pub open spec fn build(toks: Seq<Tok>, p: int) -> Result<InstrV, ErrorKind>
    decreases toks.len() - p,
{
    if p < 0 || p >= toks.len() {
        Err(ErrorKind::SyntaxError)
    } else {
        let rest = toks.subrange(p + 1, toks.len() as int);
        match tok_keyword(toks[p]) {
            Some(Keyword::Print) => if first_keyword(toks, p + 1) is None {
                Ok(InstrV::Print(rest))
            } else {
                Err(ErrorKind::SyntaxError)
            },
            Some(Keyword::Newline) => if rest.len() == 0 {
                Ok(InstrV::Newline)
            } else {
                Err(ErrorKind::SyntaxError)
            },
            Some(Keyword::End) => if rest.len() == 0 {
                Ok(InstrV::End)
            } else {
                Err(ErrorKind::SyntaxError)
            },
            Some(Keyword::Goto) => if rest.len() == 1 && rest[0] is Word && tok_keyword(rest[0])
                is None {
                Ok(InstrV::Goto(rest[0]->Word_0))
            } else {
                Err(ErrorKind::SyntaxError)
            },
            Some(k) => match first_keyword(toks, p + 1) {
                Some(q) => if q <= p || q >= toks.len() {
                    Err(ErrorKind::SyntaxError)
                } else {
                    match build(toks, q) {
                    Ok(body) => {
                        let cond = toks.subrange(p + 1, q);
                        if k == Keyword::BranchIfZero {
                            Ok(InstrV::BranchIfZero(cond, Box::new(body)))
                        } else {
                            Ok(InstrV::BranchIfNonZero(cond, Box::new(body)))
                        }
                    },
                    Err(e) => Err(e),
                    }
                },
                None => Err(ErrorKind::SyntaxError),
            },
            None => Err(ErrorKind::SyntaxError),
        }
    }
}

/// Copies `v[a..b]`.
pub fn slice_tokens(v: &Vec<Token>, a: usize, b: usize) -> (r: Vec<Token>)
    requires
        a <= b <= v@.len(),
    ensures
        toks_view(r@) == toks_view(v@).subrange(a as int, b as int),
{
    let mut r: Vec<Token> = Vec::new();
    let mut i = a;
    while i < b
        invariant
            a <= i <= b,
            b <= v@.len(),
            toks_view(r@) == toks_view(v@).subrange(a as int, i as int),
        decreases b - i,
    {
        let t = v[i].clone();
        proof {
            lemma_toks_view_push(r@, t);
            assert(toks_view(v@).subrange(a as int, i as int).push(t@) =~= toks_view(v@).subrange(
                a as int,
                i + 1,
            ));
        }
        r.push(t);
        i = i + 1;
    }
    r
}

/// The first position at or after `from` that holds a keyword.
pub fn find_keyword(v: &Vec<Token>, from: usize) -> (r: Option<usize>)
    ensures
        r matches Some(q) ==> first_keyword(toks_view(v@), from as int) == Some(q as int),
        r is None ==> first_keyword(toks_view(v@), from as int) is None,
        r matches Some(q) ==> from <= q < v@.len(),
{
    let ghost toks = toks_view(v@);
    let mut i = from;
    while i < v.len()
        invariant
            from <= i,
            toks == toks_view(v@),
            first_keyword(toks, from as int) == first_keyword(toks, i as int),
        decreases v@.len() - i,
    {
        if token_keyword(&v[i]).is_some() {
            return Some(i);
        }
        i = i + 1;
    }
    None
}

/// Whether an executable instruction result matches its model.
pub open spec fn instr_matches(r: Result<Instruction, ErrorKind>, m: Result<InstrV, ErrorKind>) -> bool {
    match r {
        Ok(i) => m == Ok::<InstrV, ErrorKind>(i@),
        Err(e) => m == Err::<InstrV, ErrorKind>(e),
    }
}

/// Builds the instruction that the keyword at position `p` leads, nesting the bodies
/// of conditional branches.
pub fn return_instr(rpn: &Vec<Token>, p: usize) -> (r: Result<Instruction, ErrorKind>)
    requires
        p < rpn@.len(),
    ensures
        instr_matches(r, build(toks_view(rpn@), p as int)),
    decreases rpn@.len() - p,
{
    let ghost toks = toks_view(rpn@);
    let n = rpn.len();
    let kw = token_keyword(&rpn[p]);
    assert(toks[p as int] == rpn@[p as int]@);
    match kw {
        Some(Keyword::Print) => {
            if find_keyword(rpn, p + 1).is_some() {
                return Err(ErrorKind::SyntaxError);
            }
            Ok(Instruction::Print(slice_tokens(rpn, p + 1, n)))
        },
        Some(Keyword::Newline) => {
            if p + 1 != n {
                return Err(ErrorKind::SyntaxError);
            }
            Ok(Instruction::Newline)
        },
        Some(Keyword::End) => {
            if p + 1 != n {
                return Err(ErrorKind::SyntaxError);
            }
            Ok(Instruction::End)
        },
        Some(Keyword::Goto) => {
            if n - p != 2 || token_keyword(&rpn[p + 1]).is_some() {
                return Err(ErrorKind::SyntaxError);
            }
            assert(toks.subrange(p + 1, n as int)[0] == rpn@[p + 1]@);
            match &rpn[p + 1] {
                Token::Val(Value::Word(w)) => Ok(Instruction::Goto(w.clone())),
                _ => Err(ErrorKind::SyntaxError),
            }
        },
        Some(k) => {
            match find_keyword(rpn, p + 1) {
                Some(q) => {
                    match return_instr(rpn, q) {
                        Ok(body) => {
                            let cond = slice_tokens(rpn, p + 1, q);
                            if k == Keyword::BranchIfZero {
                                let r = Instruction::BranchIfZero(cond, Box::new(body));
                                assert(r@ == InstrV::BranchIfZero(toks_view(cond@), Box::new(body@)));
                                Ok(r)
                            } else {
                                let r = Instruction::BranchIfNonZero(cond, Box::new(body));
                                assert(r@ == InstrV::BranchIfNonZero(toks_view(cond@), Box::new(body@)));
                                Ok(r)
                            }
                        },
                        Err(e) => Err(e),
                    }
                },
                None => Err(ErrorKind::SyntaxError),
            }
        },
        None => Err(ErrorKind::SyntaxError),
    }
}

} // verus!
