use vstd::prelude::*;
use crate::error::ErrorKind;
use crate::eval::{Env, EvalState, EvalV, apply_op, eval_from, eval_spec, eval_tok};
use crate::postfix::{SyState, close, flush, postfix_spec, sy_from, sy_step, unwind};
use crate::token::{Operator, Tok, prec, tok_keyword};

verus! {

/// An arithmetic expression over integer literals, as a reader parses it.
pub enum Expr {
    Lit(i32),
    Paren(Box<Expr>),
    Bin(Operator, Box<Expr>, Box<Expr>),
}

/// How loosely the outermost operator of an expression binds: a literal or a
/// parenthesised expression binds tighter than any operator.
pub open spec fn binds(e: Expr) -> int {
    match e {
        Expr::Bin(op, _, _) => prec(op),
        _ => 3,
    }
}

pub open spec fn is_binary(op: Operator) -> bool {
    op != Operator::Open && op != Operator::Closed
}

/// The tree is the one that the precedence table and left associativity give to its
/// infix text: a left operand binds at least as tightly as its operator, a right
/// operand strictly tighter; looser operands are parenthesised.
pub open spec fn well_formed(e: Expr) -> bool
    decreases e,
{
    match e {
        Expr::Lit(_) => true,
        Expr::Paren(inner) => well_formed(*inner),
        Expr::Bin(op, l, r) => {
            &&& is_binary(op)
            &&& binds(*l) >= prec(op)
            &&& binds(*r) > prec(op)
            &&& well_formed(*l)
            &&& well_formed(*r)
        },
    }
}

/// The expression written out in infix order, parentheses included.
pub open spec fn infix(e: Expr) -> Seq<Tok>
    decreases e,
{
    match e {
        Expr::Lit(n) => seq![Tok::Int(n)],
        Expr::Paren(inner) => seq![Tok::Op(Operator::Open)] + infix(*inner) + seq![
            Tok::Op(Operator::Closed),
        ],
        Expr::Bin(op, l, r) => infix(*l) + seq![Tok::Op(op)] + infix(*r),
    }
}

/// The expression written out in postfix order.
pub open spec fn postfix(e: Expr) -> Seq<Tok>
    decreases e,
{
    match e {
        Expr::Lit(n) => seq![Tok::Int(n)],
        Expr::Paren(inner) => postfix(*inner),
        Expr::Bin(op, l, r) => postfix(*l) + postfix(*r) + seq![Tok::Op(op)],
    }
}

/// The value of the expression: operands first, left before right, then the operator.
pub open spec fn value(e: Expr) -> Result<i32, ErrorKind>
    decreases e,
{
    match e {
        Expr::Lit(n) => Ok(n),
        Expr::Paren(inner) => value(*inner),
        Expr::Bin(op, l, r) => match value(*l) {
            Ok(a) => match value(*r) {
                Ok(b) => apply_op(op, a, b),
                Err(x) => Err(x),
            },
            Err(x) => Err(x),
        },
    }
}

/// The part of the postfix form that the converter has emitted once the infix text
/// of `e` is read.
spec fn emitted(e: Expr) -> Seq<Tok>
    decreases e,
{
    match e {
        Expr::Lit(n) => seq![Tok::Int(n)],
        Expr::Paren(inner) => postfix(*inner),
        Expr::Bin(op, l, r) => postfix(*l) + emitted(*r),
    }
}

/// The operators of `e` still on the converter's stack once its infix text is read.
spec fn pending(e: Expr) -> Seq<Operator>
    decreases e,
{
    match e {
        Expr::Bin(op, l, r) => seq![op] + pending(*r),
        _ => Seq::empty(),
    }
}

/// The output that popping a whole stack produces, top first.
spec fn popped(s: Seq<Operator>) -> Seq<Tok>
    decreases s.len(),
{
    if s.len() == 0 {
        Seq::empty()
    } else {
        seq![Tok::Op(s.last())] + popped(s.drop_last())
    }
}

proof fn lemma_popped_prepend(op: Operator, s: Seq<Operator>)
    ensures
        popped(seq![op] + s) == popped(s) + seq![Tok::Op(op)],
    decreases s.len(),
{
    if s.len() == 0 {
        assert(popped(seq![op]) =~= seq![Tok::Op(op)]) by {
            assert(seq![op].drop_last() =~= Seq::<Operator>::empty());
            assert(seq![op].last() == op);
            assert(popped(Seq::<Operator>::empty()) == Seq::<Tok>::empty());
        }
        assert(popped(s) + seq![Tok::Op(op)] =~= seq![Tok::Op(op)]);
    } else {
        assert((seq![op] + s).drop_last() =~= seq![op] + s.drop_last());
        lemma_popped_prepend(op, s.drop_last());
        assert((seq![op] + s).last() == s.last());
        assert(popped(seq![op] + s) =~= popped(s) + seq![Tok::Op(op)]);
    }
}

proof fn lemma_pending(e: Expr)
    requires
        well_formed(e),
    ensures
        emitted(e) + popped(pending(e)) == postfix(e),
        forall|i: int| 0 <= i < pending(e).len() ==> prec(#[trigger] pending(e)[i]) >= binds(e),
        forall|i: int| 0 <= i < pending(e).len() ==> is_binary(#[trigger] pending(e)[i]),
    decreases e,
{
    match e {
        Expr::Lit(n) => {
            assert(popped(Seq::<Operator>::empty()) =~= Seq::<Tok>::empty());
            assert(emitted(e) + popped(pending(e)) =~= postfix(e));
        },
        Expr::Paren(inner) => {
            assert(popped(Seq::<Operator>::empty()) =~= Seq::<Tok>::empty());
            assert(emitted(e) + popped(pending(e)) =~= postfix(e));
        },
        Expr::Bin(op, l, r) => {
            lemma_pending(*r);
            lemma_popped_prepend(op, pending(*r));
            assert(emitted(e) + popped(pending(e)) =~= postfix(*l) + (emitted(*r) + popped(
                pending(*r),
            )) + seq![Tok::Op(op)]);
            assert forall|i: int| 0 <= i < pending(e).len() implies prec(
                #[trigger] pending(e)[i],
            ) >= binds(e) && is_binary(pending(e)[i]) by {
                if i > 0 {
                    assert(pending(e)[i] == pending(*r)[i - 1]);
                }
            }
        },
    }
}

proof fn lemma_sy_single(t: Tok, st: SyState)
    ensures
        sy_from(seq![t], st) == sy_step(st, t),
{
    assert(seq![t].drop_first() =~= Seq::<Tok>::empty());
    assert(seq![t][0] == t);
    match sy_step(st, t) {
        Ok(st2) => {
            assert(sy_from(Seq::<Tok>::empty(), st2) == Ok::<SyState, ErrorKind>(st2));
        },
        Err(x) => {},
    }
}

proof fn lemma_eval_single(t: Tok, env: Env, st: EvalState)
    ensures
        eval_from(seq![t], env, st) == eval_tok(t, env, st),
{
    assert(seq![t].drop_first() =~= Seq::<Tok>::empty());
    assert(seq![t][0] == t);
    match eval_tok(t, env, st) {
        Ok(st2) => {
            assert(eval_from(Seq::<Tok>::empty(), env, st2) == Ok::<EvalState, ErrorKind>(st2));
        },
        Err(x) => {},
    }
}

proof fn lemma_binds_positive(e: Expr)
    requires
        well_formed(e),
    ensures
        binds(e) >= 1,
{
    match e {
        Expr::Bin(op, l, r) => {
            assert(is_binary(op));
        },
        _ => {},
    }
}

proof fn lemma_unwind(out: Seq<Tok>, base: Seq<Operator>, s: Seq<Operator>, op: Operator)
    requires
        forall|i: int| 0 <= i < s.len() ==> prec(#[trigger] s[i]) >= prec(op),
        base.len() == 0 || prec(base.last()) < prec(op),
    ensures
        unwind(out, base + s, op) == (out + popped(s), base),
    decreases s.len(),
{
    if s.len() == 0 {
        assert(base + s =~= base);
        assert(out + popped(s) =~= out);
    } else {
        assert((base + s).drop_last() =~= base + s.drop_last());
        assert((base + s).last() == s.last());
        assert(prec(s[s.len() - 1]) >= prec(op));
        lemma_unwind(out.push(Tok::Op(s.last())), base, s.drop_last(), op);
        assert(out.push(Tok::Op(s.last())) + popped(s.drop_last()) =~= out + popped(s));
    }
}

proof fn lemma_close(out: Seq<Tok>, base: Seq<Operator>, s: Seq<Operator>)
    requires
        forall|i: int| 0 <= i < s.len() ==> is_binary(#[trigger] s[i]),
    ensures
        close(out, base.push(Operator::Open) + s) == Ok::<SyState, ErrorKind>(
            (out + popped(s), base),
        ),
    decreases s.len(),
{
    if s.len() == 0 {
        assert(base.push(Operator::Open) + s =~= base.push(Operator::Open));
        assert(base.push(Operator::Open).drop_last() =~= base);
        assert(out + popped(s) =~= out);
    } else {
        let t = base.push(Operator::Open) + s;
        assert(t.drop_last() =~= base.push(Operator::Open) + s.drop_last());
        assert(t.last() == s.last());
        assert(is_binary(s[s.len() - 1]));
        lemma_close(out.push(Tok::Op(s.last())), base, s.drop_last());
        assert(out.push(Tok::Op(s.last())) + popped(s.drop_last()) =~= out + popped(s));
    }
}

proof fn lemma_flush(out: Seq<Tok>, s: Seq<Operator>)
    requires
        forall|i: int| 0 <= i < s.len() ==> is_binary(#[trigger] s[i]),
    ensures
        flush(out, s) == Ok::<Seq<Tok>, ErrorKind>(out + popped(s)),
    decreases s.len(),
{
    if s.len() == 0 {
        assert(out + popped(s) =~= out);
    } else {
        assert(is_binary(s[s.len() - 1]));
        lemma_flush(out.push(Tok::Op(s.last())), s.drop_last());
        assert(out.push(Tok::Op(s.last())) + popped(s.drop_last()) =~= out + popped(s));
    }
}

proof fn lemma_sy_concat(a: Seq<Tok>, b: Seq<Tok>, st: SyState)
    ensures
        sy_from(a + b, st) == match sy_from(a, st) {
            Ok(st2) => sy_from(b, st2),
            Err(e) => Err(e),
        },
    decreases a.len(),
{
    if a.len() == 0 {
        assert(a + b =~= b);
    } else {
        assert((a + b).drop_first() =~= a.drop_first() + b);
        assert((a + b)[0] == a[0]);
        match sy_step(st, a[0]) {
            Ok(st2) => lemma_sy_concat(a.drop_first(), b, st2),
            Err(e) => {},
        }
    }
}

proof fn lemma_sy_expr(e: Expr, out: Seq<Tok>, stack: Seq<Operator>)
    requires
        well_formed(e),
        stack.len() == 0 || prec(stack.last()) < binds(e),
    ensures
        sy_from(infix(e), (out, stack)) == Ok::<SyState, ErrorKind>(
            (out + emitted(e), stack + pending(e)),
        ),
    decreases e,
{
    match e {
        Expr::Lit(n) => {
            let t = Tok::Int(n);
            assert(tok_keyword(t) is None);
            lemma_sy_single(t, (out, stack));
            assert(out.push(t) =~= out + emitted(e));
            assert(stack + pending(e) =~= stack);
        },
        Expr::Paren(inner) => {
            let open = seq![Tok::Op(Operator::Open)];
            let closed = seq![Tok::Op(Operator::Closed)];
            assert(infix(e) == open + infix(*inner) + closed);
            lemma_sy_concat(open + infix(*inner), closed, (out, stack));
            lemma_sy_concat(open, infix(*inner), (out, stack));
            lemma_sy_single(Tok::Op(Operator::Open), (out, stack));
            lemma_binds_positive(*inner);
            lemma_sy_expr(*inner, out, stack.push(Operator::Open));
            lemma_pending(*inner);
            lemma_close(out + emitted(*inner), stack, pending(*inner));
            lemma_sy_single(
                Tok::Op(Operator::Closed),
                (out + emitted(*inner), stack.push(Operator::Open) + pending(*inner)),
            );
            assert(out + emitted(*inner) + popped(pending(*inner)) =~= out + emitted(e));
            assert(stack + pending(e) =~= stack);
        },
        Expr::Bin(op, l, r) => {
            let mid = seq![Tok::Op(op)];
            assert(infix(e) == infix(*l) + mid + infix(*r));
            lemma_sy_concat(infix(*l) + mid, infix(*r), (out, stack));
            lemma_sy_concat(infix(*l), mid, (out, stack));
            lemma_sy_expr(*l, out, stack);
            lemma_pending(*l);
            lemma_unwind(out + emitted(*l), stack, pending(*l), op);
            lemma_sy_single(Tok::Op(op), (out + emitted(*l), stack + pending(*l)));
            assert(out + emitted(*l) + popped(pending(*l)) == out + postfix(*l)) by {
                assert(out + emitted(*l) + popped(pending(*l)) =~= out + (emitted(*l) + popped(
                    pending(*l),
                )));
            }
            lemma_sy_expr(*r, out + postfix(*l), stack.push(op));
            assert(out + postfix(*l) + emitted(*r) =~= out + emitted(e));
            assert(stack.push(op) + pending(*r) =~= stack + pending(e));
        },
    }
}

proof fn lemma_eval_concat(a: Seq<Tok>, b: Seq<Tok>, env: Env, st: EvalState)
    ensures
        eval_from(a + b, env, st) == match eval_from(a, env, st) {
            Ok(st2) => eval_from(b, env, st2),
            Err(e) => Err(e),
        },
    decreases a.len(),
{
    if a.len() == 0 {
        assert(a + b =~= b);
    } else {
        assert((a + b).drop_first() =~= a.drop_first() + b);
        assert((a + b)[0] == a[0]);
        match eval_tok(a[0], env, st) {
            Ok(st2) => lemma_eval_concat(a.drop_first(), b, env, st2),
            Err(e) => {},
        }
    }
}

proof fn lemma_eval_expr(e: Expr, env: Env, stack: Seq<i32>, text: Option<Seq<char>>)
    requires
        well_formed(e),
    ensures
        eval_from(postfix(e), env, (stack, text)) == match value(e) {
            Ok(v) => Ok::<EvalState, ErrorKind>((stack.push(v), text)),
            Err(x) => Err(x),
        },
    decreases e,
{
    match e {
        Expr::Lit(n) => {
            lemma_eval_single(Tok::Int(n), env, (stack, text));
        },
        Expr::Paren(inner) => {
            lemma_eval_expr(*inner, env, stack, text);
        },
        Expr::Bin(op, l, r) => {
            let last = seq![Tok::Op(op)];
            lemma_eval_concat(postfix(*l) + postfix(*r), last, env, (stack, text));
            lemma_eval_concat(postfix(*l), postfix(*r), env, (stack, text));
            lemma_eval_expr(*l, env, stack, text);
            match value(*l) {
                Ok(a) => {
                    lemma_eval_expr(*r, env, stack.push(a), text);
                    match value(*r) {
                        Ok(b) => {
                            let s2 = stack.push(a).push(b);
                            assert(s2.take(s2.len() - 2) =~= stack);
                            lemma_eval_single(Tok::Op(op), env, (s2, text));
                        },
                        Err(x) => {},
                    }
                },
                Err(x) => {},
            }
        },
    }
}

/// Converting the infix text of any expression to postfix form and evaluating it gives
/// the expression's conventional value: operators of higher precedence bind first,
/// equal ones group from the left, parentheses override both, and operands are
/// computed left before right. A failure of the arithmetic (overflow, division by
/// zero) is reported as the same error.
pub proof fn lemma_infix_evaluates_conventionally(e: Expr, env: Env)
    requires
        well_formed(e),
    ensures
        postfix_spec(infix(e)) == Ok::<Seq<Tok>, ErrorKind>(postfix(e)),
        eval_spec(postfix(e), env) == match value(e) {
            Ok(v) => Ok::<EvalV, ErrorKind>(EvalV::Number(v)),
            Err(x) => Err(x),
        },
{
    lemma_sy_expr(e, Seq::empty(), Seq::empty());
    lemma_pending(e);
    lemma_flush(Seq::<Tok>::empty() + emitted(e), Seq::<Operator>::empty() + pending(e));
    assert(Seq::<Tok>::empty() + emitted(e) =~= emitted(e));
    assert(Seq::<Operator>::empty() + pending(e) =~= pending(e));
    lemma_eval_expr(e, env, Seq::empty(), None);
    match value(e) {
        Ok(v) => {
            assert(Seq::<i32>::empty().push(v)[0] == v);
        },
        Err(x) => {},
    }
}

} // verus!
