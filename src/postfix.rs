use vstd::prelude::*;
use crate::error::ErrorKind;
use crate::token::{
    Operator, Token, Tok, lemma_toks_view_push, must_unwind, tok_keyword, toks_view,
    token_keyword, unwindopstack,
};

verus! {

/// The converter's state: the output so far and the pending operator stack.
pub type SyState = (Seq<Tok>, Seq<Operator>);

/// Moves every pending operator to the output, top first; an open parenthesis left
/// on the stack has no partner.
pub open spec fn flush(out: Seq<Tok>, stack: Seq<Operator>) -> Result<Seq<Tok>, ErrorKind>
    decreases stack.len(),
{
    if stack.len() == 0 {
        Ok(out)
    } else if stack.last() == Operator::Open {
        Err(ErrorKind::MismatchedParenthesesError)
    } else {
        flush(out.push(Tok::Op(stack.last())), stack.drop_last())
    }
}

/// Moves operators to the output until the matching open parenthesis, which is dropped.
pub open spec fn close(out: Seq<Tok>, stack: Seq<Operator>) -> Result<SyState, ErrorKind>
    decreases stack.len(),
{
    if stack.len() == 0 {
        Err(ErrorKind::MismatchedParenthesesError)
    } else if stack.last() == Operator::Open {
        Ok((out, stack.drop_last()))
    } else {
        close(out.push(Tok::Op(stack.last())), stack.drop_last())
    }
}

/// Moves operators that bind at least as tightly as `op` to the output.
pub open spec fn unwind(out: Seq<Tok>, stack: Seq<Operator>, op: Operator) -> SyState
    decreases stack.len(),
{
    if must_unwind(stack, op) {
        unwind(out.push(Tok::Op(stack.last())), stack.drop_last(), op)
    } else {
        (out, stack)
    }
}

/// One step of the shunting-yard conversion. A keyword closes the expression before
/// it, so the pending operators are flushed ahead of it.
pub open spec fn sy_step(st: SyState, t: Tok) -> Result<SyState, ErrorKind> {
    let (out, stack) = st;
    match t {
        Tok::Op(Operator::Open) => Ok((out, stack.push(Operator::Open))),
        Tok::Op(Operator::Closed) => close(out, stack),
        Tok::Op(op) => {
            let (o2, s2) = unwind(out, stack, op);
            Ok((o2, s2.push(op)))
        },
        _ => if tok_keyword(t) is Some {
            match flush(out, stack) {
                Ok(o2) => Ok((o2.push(t), Seq::empty())),
                Err(e) => Err(e),
            }
        } else {
            Ok((out.push(t), stack))
        },
    }
}

/// Runs the conversion over a token sequence from a given state.
pub open spec fn sy_from(toks: Seq<Tok>, st: SyState) -> Result<SyState, ErrorKind>
    decreases toks.len(),
{
    if toks.len() == 0 {
        Ok(st)
    } else {
        match sy_step(st, toks[0]) {
            Ok(st2) => sy_from(toks.drop_first(), st2),
            Err(e) => Err(e),
        }
    }
}

/// The postfix form of an infix token sequence.
pub open spec fn postfix_spec(toks: Seq<Tok>) -> Result<Seq<Tok>, ErrorKind> {
    match sy_from(toks, (Seq::empty(), Seq::empty())) {
        Ok(st) => flush(st.0, st.1),
        Err(e) => Err(e),
    }
}

fn flush_exec(out: &mut Vec<Token>, stack: &mut Vec<Operator>) -> (r: Result<(), ErrorKind>)
    ensures
        match flush(toks_view(old(out)@), old(stack)@) {
            Ok(o) => r is Ok && toks_view(final(out)@) == o && final(stack)@.len() == 0,
            Err(e) => r == Err::<(), ErrorKind>(e),
        },
{
    while stack.len() > 0
        invariant
            flush(toks_view(old(out)@), old(stack)@) == flush(toks_view(out@), stack@),
        decreases stack@.len(),
    {
        let top = stack[stack.len() - 1];
        if top == Operator::Open {
            return Err(ErrorKind::MismatchedParenthesesError);
        }
        proof {
            lemma_toks_view_push(out@, Token::Op(top));
        }
        stack.pop();
        out.push(Token::Op(top));
    }
    Ok(())
}

fn close_exec(out: &mut Vec<Token>, stack: &mut Vec<Operator>) -> (r: Result<(), ErrorKind>)
    ensures
        match close(toks_view(old(out)@), old(stack)@) {
            Ok(st) => r is Ok && toks_view(final(out)@) == st.0 && final(stack)@ == st.1,
            Err(e) => r == Err::<(), ErrorKind>(e),
        },
{
    loop
        invariant
            close(toks_view(old(out)@), old(stack)@) == close(toks_view(out@), stack@),
        decreases stack@.len(),
    {
        if stack.len() == 0 {
            return Err(ErrorKind::MismatchedParenthesesError);
        }
        let top = stack.pop().unwrap();
        if top == Operator::Open {
            return Ok(());
        }
        proof {
            lemma_toks_view_push(out@, Token::Op(top));
        }
        out.push(Token::Op(top));
    }
}

fn unwind_exec(out: &mut Vec<Token>, stack: &mut Vec<Operator>, op: Operator)
    ensures
        unwind(toks_view(old(out)@), old(stack)@, op) == (toks_view(final(out)@), final(stack)@),
{
    while unwindopstack(stack, op)
        invariant
            unwind(toks_view(old(out)@), old(stack)@, op) == unwind(toks_view(out@), stack@, op),
        decreases stack@.len(),
    {
        let top = stack.pop().unwrap();
        proof {
            lemma_toks_view_push(out@, Token::Op(top));
        }
        out.push(Token::Op(top));
    }
}

/// Reorders an infix token sequence into postfix order (shunting-yard).
pub fn to_postfix(tokens: &Vec<Token>) -> (r: Result<Vec<Token>, ErrorKind>)
    ensures
        match r {
            Ok(v) => postfix_spec(toks_view(tokens@)) == Ok::<Seq<Tok>, ErrorKind>(toks_view(v@)),
            Err(e) => postfix_spec(toks_view(tokens@)) == Err::<Seq<Tok>, ErrorKind>(e),
        },
{
    let ghost toks = toks_view(tokens@);
    let mut out: Vec<Token> = Vec::new();
    let mut stack: Vec<Operator> = Vec::new();
    let mut i: usize = 0;
    proof {
        assert(toks.skip(0) =~= toks);
        assert(toks_view(out@) =~= Seq::<Tok>::empty());
        assert(stack@ =~= Seq::<Operator>::empty());
    }
    while i < tokens.len()
        invariant
            i <= tokens@.len(),
            toks == toks_view(tokens@),
            sy_from(toks, (Seq::empty(), Seq::empty())) == sy_from(
                toks.skip(i as int),
                (toks_view(out@), stack@),
            ),
        decreases tokens@.len() - i,
    {
        proof {
            assert(toks.skip(i as int).drop_first() =~= toks.skip(i + 1));
            assert(toks.skip(i as int)[0] == tokens@[i as int]@);
        }
        let tok = &tokens[i];
        match tok {
            Token::Op(Operator::Open) => {
                stack.push(Operator::Open);
            },
            Token::Op(Operator::Closed) => {
                match close_exec(&mut out, &mut stack) {
                    Ok(()) => {},
                    Err(e) => return Err(e),
                }
            },
            Token::Op(op) => {
                unwind_exec(&mut out, &mut stack, *op);
                stack.push(*op);
            },
            Token::Val(_) => {
                if token_keyword(tok).is_some() {
                    match flush_exec(&mut out, &mut stack) {
                        Ok(()) => {},
                        Err(e) => return Err(e),
                    }
                    proof {
                        assert(stack@ =~= Seq::<Operator>::empty());
                    }
                }
                let copy = tok.clone();
                proof {
                    lemma_toks_view_push(out@, copy);
                }
                out.push(copy);
            },
        }
        i = i + 1;
    }
    proof {
        assert(toks.skip(i as int).len() == 0);
    }
    match flush_exec(&mut out, &mut stack) {
        Ok(()) => Ok(out),
        Err(e) => Err(e),
    }
}

} // verus!
