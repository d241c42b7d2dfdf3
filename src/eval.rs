use vstd::prelude::*;
use crate::error::ErrorKind;
use crate::table::Table;
use crate::token::{Operator, Token, Value, Tok, toks_view};

verus! {

/// What an expression yields: a number or a piece of text.
#[derive(Debug)]
pub enum Evaluated {
    Number(i32),
    Text(String),
}

/// The model of an evaluation result.
pub enum EvalV {
    Number(i32),
    Text(Seq<char>),
}

impl View for Evaluated {
    type V = EvalV;

    open spec fn view(&self) -> EvalV {
        match self {
            Evaluated::Number(n) => EvalV::Number(*n),
            Evaluated::Text(s) => EvalV::Text(s@),
        }
    }
}

/// The variable environment's model: names without their sigil, mapped to values.
pub type Env = Map<Seq<char>, i32>;

pub open spec fn in_i32(x: int) -> bool {
    i32::MIN <= x <= i32::MAX
}

pub open spec fn abs(x: int) -> int {
    if x < 0 {
        -x
    } else {
        x
    }
}

/// Integer division rounding toward zero.
pub open spec fn trunc_div(a: int, b: int) -> int {
    let q = abs(a) / abs(b);
    if (a < 0) != (b < 0) {
        -q
    } else {
        q
    }
}

/// The remainder of `trunc_div`: it takes the sign of the dividend.
pub open spec fn trunc_rem(a: int, b: int) -> int {
    let r = abs(a) % abs(b);
    if a < 0 {
        -r
    } else {
        r
    }
}

pub open spec fn checked(x: int) -> Result<i32, ErrorKind> {
    if in_i32(x) {
        Ok(x as i32)
    } else {
        Err(ErrorKind::OverflowError)
    }
}

/// Applies a binary operator to its left and right operand.
pub open spec fn apply_op(op: Operator, a: i32, b: i32) -> Result<i32, ErrorKind> {
    match op {
        Operator::Plus => checked(a + b),
        Operator::Minus => checked(a - b),
        Operator::Mul => checked(a * b),
        Operator::Div => if b == 0 {
            Err(ErrorKind::DivisionByZeroError)
        } else {
            checked(trunc_div(a as int, b as int))
        },
        Operator::Mod => if b == 0 {
            Err(ErrorKind::DivisionByZeroError)
        } else if a == i32::MIN && b == -1 {
            Err(ErrorKind::OverflowError)
        } else {
            Ok(trunc_rem(a as int, b as int) as i32)
        },
        Operator::And => Ok(a & b),
        Operator::Or => Ok(a | b),
        Operator::Xor => Ok(a ^ b),
        Operator::Open | Operator::Closed => Err(ErrorKind::SyntaxError),
    }
}

/// The variable that a word refers to: the word without its leading `$`.
pub open spec fn var_name(w: Seq<char>) -> Option<Seq<char>> {
    if w.len() > 0 && w[0] == '$' {
        Some(w.drop_first())
    } else {
        None
    }
}

/// The evaluator's state: the operand stack and the last string literal seen.
pub type EvalState = (Seq<i32>, Option<Seq<char>>);

/// One step of postfix evaluation.
pub open spec fn eval_tok(t: Tok, env: Env, st: EvalState) -> Result<EvalState, ErrorKind> {
    let (stack, text) = st;
    match t {
        Tok::Int(n) => Ok((stack.push(n), text)),
        Tok::Word(w) => match var_name(w) {
            Some(name) => if env.contains_key(name) {
                Ok((stack.push(env[name]), text))
            } else {
                Err(ErrorKind::UnknownIdentifierError)
            },
            None => Err(ErrorKind::UnknownIdentifierError),
        },
        Tok::Str(s) => Ok((stack, Some(s))),
        Tok::Op(op) => if op == Operator::Open || op == Operator::Closed {
            Err(ErrorKind::SyntaxError)
        } else if stack.len() < 2 {
            Err(ErrorKind::ArityError)
        } else {
            match apply_op(op, stack[stack.len() - 2], stack[stack.len() - 1]) {
                Ok(v) => Ok((stack.take(stack.len() - 2).push(v), text)),
                Err(e) => Err(e),
            }
        },
    }
}

/// Runs the evaluator over a postfix sequence from a given state.
pub open spec fn eval_from(toks: Seq<Tok>, env: Env, st: EvalState) -> Result<EvalState, ErrorKind>
    decreases toks.len(),
{
    if toks.len() == 0 {
        Ok(st)
    } else {
        match eval_tok(toks[0], env, st) {
            Ok(st2) => eval_from(toks.drop_first(), env, st2),
            Err(e) => Err(e),
        }
    }
}

/// The result read off the final state: one number, or a string and no number.
pub open spec fn eval_finish(st: EvalState) -> Result<EvalV, ErrorKind> {
    let (stack, text) = st;
    if stack.len() > 1 {
        Err(ErrorKind::SyntaxError)
    } else if stack.len() == 1 {
        if text matches Some(s) && s.len() > 0 {
            Err(ErrorKind::TypeConflictError)
        } else {
            Ok(EvalV::Number(stack[0]))
        }
    } else {
        match text {
            Some(s) => Ok(EvalV::Text(s)),
            None => Err(ErrorKind::SyntaxError),
        }
    }
}

/// The value of a postfix expression in an environment.
pub open spec fn eval_spec(toks: Seq<Tok>, env: Env) -> Result<EvalV, ErrorKind> {
    match eval_from(toks, env, (Seq::empty(), None)) {
        Ok(st) => eval_finish(st),
        Err(e) => Err(e),
    }
}

/// Whether an executable evaluation result matches its model.
pub open spec fn eval_matches(r: Result<Evaluated, ErrorKind>, m: Result<EvalV, ErrorKind>) -> bool {
    match r {
        Ok(v) => m == Ok::<EvalV, ErrorKind>(v@),
        Err(e) => m == Err::<EvalV, ErrorKind>(e),
    }
}

fn abs_u32(a: i32) -> (r: u32)
    ensures
        r == abs(a as int),
{
    if a < 0 {
        if a == i32::MIN {
            2147483648u32
        } else {
            (-a) as u32
        }
    } else {
        a as u32
    }
}

/// Applies a binary operator, reporting division by zero and overflow.
pub fn apply_operator(op: Operator, a: i32, b: i32) -> (r: Result<i32, ErrorKind>)
    ensures
        r == apply_op(op, a, b),
{
    match op {
        Operator::Plus => match a.checked_add(b) {
            Some(v) => Ok(v),
            None => Err(ErrorKind::OverflowError),
        },
        Operator::Minus => match a.checked_sub(b) {
            Some(v) => Ok(v),
            None => Err(ErrorKind::OverflowError),
        },
        Operator::Mul => match a.checked_mul(b) {
            Some(v) => Ok(v),
            None => Err(ErrorKind::OverflowError),
        },
        Operator::Div => {
            if b == 0 {
                return Err(ErrorKind::DivisionByZeroError);
            }
            let q = abs_u32(a) / abs_u32(b);
            if (a < 0) != (b < 0) {
                Ok((-(q as i64)) as i32)
            } else if q > i32::MAX as u32 {
                Err(ErrorKind::OverflowError)
            } else {
                Ok(q as i32)
            }
        },
        Operator::Mod => {
            if b == 0 {
                return Err(ErrorKind::DivisionByZeroError);
            }
            if a == i32::MIN && b == -1 {
                return Err(ErrorKind::OverflowError);
            }
            let m = abs_u32(a) % abs_u32(b);
            if a < 0 {
                Ok((-(m as i64)) as i32)
            } else {
                Ok(m as i32)
            }
        },
        Operator::And => Ok(a & b),
        Operator::Or => Ok(a | b),
        Operator::Xor => Ok(a ^ b),
        Operator::Open => Err(ErrorKind::SyntaxError),
        Operator::Closed => Err(ErrorKind::SyntaxError),
    }
}

/// Evaluates a postfix expression against the variables' current values.
pub fn evalrpn(rpn: &Vec<Token>, vars: &Table<i32>) -> (r: Result<Evaluated, ErrorKind>)
    requires
        vars.wf(),
    ensures
        eval_matches(r, eval_spec(toks_view(rpn@), vars.view())),
{
    let ghost toks = toks_view(rpn@);
    let ghost env = vars.view();
    let mut stack: Vec<i32> = Vec::new();
    let mut text: Option<String> = None;
    let mut i: usize = 0;
    proof {
        assert(toks.skip(0) =~= toks);
        assert(stack@ =~= Seq::<i32>::empty());
    }
    while i < rpn.len()
        invariant
            i <= rpn@.len(),
            toks == toks_view(rpn@),
            env == vars.view(),
            vars.wf(),
            eval_from(toks, env, (Seq::empty(), None)) == eval_from(
                toks.skip(i as int),
                env,
                (stack@, text_view(text)),
            ),
        decreases rpn@.len() - i,
    {
        proof {
            assert(toks.skip(i as int).drop_first() =~= toks.skip(i + 1));
            assert(toks.skip(i as int)[0] == rpn@[i as int]@);
        }
        match &rpn[i] {
            Token::Val(Value::Int(n)) => {
                stack.push(*n);
            },
            Token::Val(Value::Word(w)) => {
                let value = match var_of(w.as_str()) {
                    Some(name) => vars.get(name),
                    None => None,
                };
                match value {
                    Some(v) => stack.push(v),
                    None => return Err(ErrorKind::UnknownIdentifierError),
                }
            },
            Token::Val(Value::Str(s)) => {
                text = Some(s.clone());
            },
            Token::Op(op) => {
                if *op == Operator::Open || *op == Operator::Closed {
                    return Err(ErrorKind::SyntaxError);
                }
                if stack.len() < 2 {
                    return Err(ErrorKind::ArityError);
                }
                let ghost before = stack@;
                let b = stack.pop().unwrap();
                let a = stack.pop().unwrap();
                assert(stack@ =~= before.take(before.len() - 2));
                match apply_operator(*op, a, b) {
                    Ok(v) => stack.push(v),
                    Err(e) => return Err(e),
                }
            },
        }
        i = i + 1;
    }
    proof {
        assert(toks.skip(i as int).len() == 0);
    }
    if stack.len() > 1 {
        return Err(ErrorKind::SyntaxError);
    }
    if stack.len() == 1 {
        match text {
            Some(s) => {
                if s.as_str().unicode_len() > 0 {
                    return Err(ErrorKind::TypeConflictError);
                }
            },
            None => {},
        }
        return Ok(Evaluated::Number(stack[0]));
    }
    match text {
        Some(s) => Ok(Evaluated::Text(s)),
        None => Err(ErrorKind::SyntaxError),
    }
}

pub open spec fn text_view(t: Option<String>) -> Option<Seq<char>> {
    match t {
        Some(s) => Some(s@),
        None => None,
    }
}

/// The variable name inside a word that starts with `$`.
fn var_of(w: &str) -> (r: Option<&str>)
    ensures
        r matches Some(n) ==> var_name(w@) == Some(n@),
        r is None ==> var_name(w@) is None,
{
    let n = w.unicode_len();
    if n > 0 && w.get_char(0) == '$' {
        let name = w.substring_char(1, n);
        assert(name@ =~= w@.drop_first());
        Some(name)
    } else {
        None
    }
}

} // verus!
