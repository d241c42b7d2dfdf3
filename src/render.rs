use vstd::prelude::*;
use crate::error::ErrorKind;
use crate::lexer::{
    Lex, digit_value, in_word, is_digit, lex_end, lex_from, lex_step, prepend, starts_word,
    tokenize_spec,
};
use crate::token::{Operator, Token, Value, Tok, toks_view};

verus! {

/// The character of a decimal digit.
pub open spec fn digit_char(d: int) -> char {
    if d == 0 {
        '0'
    } else if d == 1 {
        '1'
    } else if d == 2 {
        '2'
    } else if d == 3 {
        '3'
    } else if d == 4 {
        '4'
    } else if d == 5 {
        '5'
    } else if d == 6 {
        '6'
    } else if d == 7 {
        '7'
    } else if d == 8 {
        '8'
    } else {
        '9'
    }
}

/// The decimal digits of a natural number, without leading zeros.
pub open spec fn decimal(n: nat) -> Seq<char>
    decreases n,
{
    if n < 10 {
        seq![digit_char(n as int)]
    } else {
        decimal(n / 10).push(digit_char(n as int % 10))
    }
}

/// The symbol of an operator.
pub open spec fn op_symbol(op: Operator) -> char {
    match op {
        Operator::Plus => '+',
        Operator::Minus => '-',
        Operator::Mul => '*',
        Operator::Div => '/',
        Operator::Mod => '%',
        Operator::And => '&',
        Operator::Or => '|',
        Operator::Xor => '^',
        Operator::Open => '(',
        Operator::Closed => ')',
    }
}

/// The canonical surface form of a token: digits, the word as written, the string in
/// quotes, the operator symbol.
pub open spec fn render(t: Tok) -> Seq<char> {
    match t {
        Tok::Op(op) => seq![op_symbol(op)],
        Tok::Int(n) => if n >= 0 {
            decimal(n as nat)
        } else {
            seq!['-'] + decimal((-n) as nat)
        },
        Tok::Word(w) => w,
        Tok::Str(s) => seq!['"'] + s + seq!['"'],
    }
}

/// The canonical surface form of a token sequence: tokens separated by single spaces.
pub open spec fn serialize_spec(ts: Seq<Tok>) -> Seq<char>
    decreases ts.len(),
{
    if ts.len() == 0 {
        Seq::empty()
    } else if ts.len() == 1 {
        render(ts[0])
    } else {
        render(ts[0]) + seq![' '] + serialize_spec(ts.drop_first())
    }
}

/// A token that the tokenizer can produce: a non-negative integer, a word that starts
/// with a letter or the sigil and continues with letters, digits or sigils, a string
/// without quotes, or any operator.
/// The text holds no double quote.
pub open spec fn no_quote(s: Seq<char>) -> bool {
    forall|i: int| #![trigger s[i]] 0 <= i < s.len() ==> s[i] != '"'
}

pub open spec fn tok_ok(t: Tok) -> bool {
    match t {
        Tok::Int(n) => n >= 0,
        Tok::Word(w) => w.len() > 0 && starts_word(w[0]) && forall|i: int|
            0 <= i < w.len() ==> in_word(#[trigger] w[i]),
        Tok::Str(s) => no_quote(s),
        Tok::Op(_) => true,
    }
}

pub open spec fn all_ok(ts: Seq<Tok>) -> bool {
    forall|i: int| 0 <= i < ts.len() ==> tok_ok(#[trigger] ts[i])
}

proof fn lemma_prepend_empty(r: Result<Seq<Tok>, ErrorKind>)
    ensures
        prepend(Seq::empty(), r) == r,
{
    if let Ok(t) = r {
        assert(Seq::<Tok>::empty() + t =~= t);
    }
}

proof fn lemma_prepend_prepend(a: Seq<Tok>, b: Seq<Tok>, r: Result<Seq<Tok>, ErrorKind>)
    ensures
        prepend(a, prepend(b, r)) == prepend(a + b, r),
{
    if let Ok(t) = r {
        assert(a + (b + t) =~= a + b + t);
    }
}

proof fn lemma_lex_cons(c: char, rest: Seq<char>, st: Lex)
    ensures
        lex_from(seq![c] + rest, st) == match lex_step(st, c) {
            Ok((st2, e)) => prepend(e, lex_from(rest, st2)),
            Err(x) => Err(x),
        },
{
    assert((seq![c] + rest).drop_first() =~= rest);
    assert((seq![c] + rest)[0] == c);
}

proof fn lemma_digit_char(d: int)
    requires
        0 <= d < 10,
    ensures
        is_digit(digit_char(d)),
        digit_value(digit_char(d)) == d,
        !starts_word(digit_char(d)),
{
}

proof fn lemma_lex_decimal(n: nat, rest: Seq<char>)
    requires
        n <= i32::MAX,
    ensures
        lex_from(decimal(n) + rest, Lex::Idle) == lex_from(rest, Lex::Num(n as i32)),
    decreases n,
{
    if n < 10 {
        lemma_digit_char(n as int);
        lemma_lex_cons(digit_char(n as int), rest, Lex::Idle);
        lemma_prepend_empty(lex_from(rest, Lex::Num(n as i32)));
    } else {
        let d = n as int % 10;
        lemma_digit_char(d);
        assert(decimal(n) + rest =~= decimal(n / 10) + (seq![digit_char(d)] + rest));
        lemma_lex_decimal(n / 10, seq![digit_char(d)] + rest);
        lemma_lex_cons(digit_char(d), rest, Lex::Num((n / 10) as i32));
        assert((n / 10) * 10 + d == n);
        lemma_prepend_empty(lex_from(rest, Lex::Num(n as i32)));
    }
}

proof fn lemma_lex_word(p: Seq<char>, q: Seq<char>, rest: Seq<char>)
    requires
        forall|i: int| 0 <= i < q.len() ==> in_word(#[trigger] q[i]),
    ensures
        lex_from(q + rest, Lex::Word(p)) == lex_from(rest, Lex::Word(p + q)),
    decreases q.len(),
{
    if q.len() == 0 {
        assert(q + rest =~= rest);
        assert(p + q =~= p);
    } else {
        let c = q[0];
        assert(in_word(q[0]));
        assert(q + rest =~= seq![c] + (q.drop_first() + rest));
        lemma_lex_cons(c, q.drop_first() + rest, Lex::Word(p));
        assert forall|i: int| 0 <= i < q.drop_first().len() implies in_word(
            #[trigger] q.drop_first()[i],
        ) by {
            assert(q.drop_first()[i] == q[i + 1]);
        }
        lemma_lex_word(p.push(c), q.drop_first(), rest);
        assert(p.push(c) + q.drop_first() =~= p + q);
        lemma_prepend_empty(lex_from(rest, Lex::Word(p + q)));
    }
}

proof fn lemma_lex_text(p: Seq<char>, q: Seq<char>, rest: Seq<char>)
    requires
        forall|i: int| #![trigger q[i]] 0 <= i < q.len() ==> q[i] != '"',
    ensures
        lex_from(q + rest, Lex::Text(p)) == lex_from(rest, Lex::Text(p + q)),
    decreases q.len(),
{
    if q.len() == 0 {
        assert(q + rest =~= rest);
        assert(p + q =~= p);
    } else {
        let c = q[0];
        assert(q[0] != '"');
        assert(q + rest =~= seq![c] + (q.drop_first() + rest));
        lemma_lex_cons(c, q.drop_first() + rest, Lex::Text(p));
        assert forall|i: int| #![trigger q.drop_first()[i]] 0 <= i < q.drop_first().len() implies q.drop_first()[i]
            != '"' by {
            assert(q.drop_first()[i] == q[i + 1]);
        }
        lemma_lex_text(p.push(c), q.drop_first(), rest);
        assert(p.push(c) + q.drop_first() =~= p + q);
        lemma_prepend_empty(lex_from(rest, Lex::Text(p + q)));
    }
}

/// Where the tokenizer stands once it has read a token's surface form: still inside an
/// integer or a word, or with the token already emitted.
spec fn resume(t: Tok, rest: Seq<char>) -> Result<Seq<Tok>, ErrorKind> {
    match t {
        Tok::Int(n) => lex_from(rest, Lex::Num(n)),
        Tok::Word(w) => lex_from(rest, Lex::Word(w)),
        _ => prepend(seq![t], lex_from(rest, Lex::Idle)),
    }
}

proof fn lemma_lex_render(t: Tok, rest: Seq<char>)
    requires
        tok_ok(t),
    ensures
        lex_from(render(t) + rest, Lex::Idle) == resume(t, rest),
{
    match t {
        Tok::Int(n) => {
            lemma_lex_decimal(n as nat, rest);
        },
        Tok::Word(w) => {
            let c = w[0];
            assert(w + rest =~= seq![c] + (w.drop_first() + rest));
            lemma_lex_cons(c, w.drop_first() + rest, Lex::Idle);
            assert forall|i: int| 0 <= i < w.drop_first().len() implies in_word(
                #[trigger] w.drop_first()[i],
            ) by {
                assert(w.drop_first()[i] == w[i + 1]);
            }
            lemma_lex_word(seq![c], w.drop_first(), rest);
            assert(seq![c] + w.drop_first() =~= w);
            lemma_prepend_empty(lex_from(rest, Lex::Word(w)));
        },
        Tok::Str(s) => {
            let q = seq!['"'];
            assert(render(t) + rest =~= q + (s + (q + rest)));
            lemma_lex_cons('"', s + (q + rest), Lex::Idle);
            lemma_prepend_empty(lex_from(s + (q + rest), Lex::Text(Seq::empty())));
            lemma_lex_text(Seq::empty(), s, q + rest);
            assert(Seq::<char>::empty() + s =~= s);
            lemma_lex_cons('"', rest, Lex::Text(s));
        },
        Tok::Op(op) => {
            lemma_lex_cons(op_symbol(op), rest, Lex::Idle);
            assert(render(t) + rest =~= seq![op_symbol(op)] + rest);
        },
    }
}

proof fn lemma_resume_space(t: Tok, rest: Seq<char>)
    ensures
        resume(t, seq![' '] + rest) == prepend(seq![t], lex_from(rest, Lex::Idle)),
{
    lemma_lex_cons(' ', rest, Lex::Idle);
    lemma_prepend_empty(lex_from(rest, Lex::Idle));
    match t {
        Tok::Int(n) => {
            lemma_lex_cons(' ', rest, Lex::Num(n));
            assert(Seq::<Tok>::empty().push(Tok::Int(n)) =~= seq![Tok::Int(n)]);
        },
        Tok::Word(w) => {
            lemma_lex_cons(' ', rest, Lex::Word(w));
        },
        _ => {},
    }
}

proof fn lemma_resume_end(t: Tok)
    ensures
        resume(t, Seq::empty()) == Ok::<Seq<Tok>, ErrorKind>(seq![t]),
{
    assert(seq![t] + Seq::<Tok>::empty() =~= seq![t]);
}

/// Tokenizing the canonical surface form of well-formed tokens gives those tokens back.
pub proof fn lemma_serialize_then_tokenize(ts: Seq<Tok>)
    requires
        all_ok(ts),
    ensures
        tokenize_spec(serialize_spec(ts)) == Ok::<Seq<Tok>, ErrorKind>(ts),
    decreases ts.len(),
{
    if ts.len() == 0 {
        assert(ts =~= Seq::<Tok>::empty());
    } else if ts.len() == 1 {
        assert(tok_ok(ts[0]));
        lemma_lex_render(ts[0], Seq::empty());
        assert(render(ts[0]) + Seq::<char>::empty() =~= render(ts[0]));
        lemma_resume_end(ts[0]);
        assert(seq![ts[0]] =~= ts);
    } else {
        let rest = ts.drop_first();
        assert(tok_ok(ts[0]));
        assert forall|i: int| 0 <= i < rest.len() implies tok_ok(#[trigger] rest[i]) by {
            assert(rest[i] == ts[i + 1]);
        }
        lemma_serialize_then_tokenize(rest);
        assert(serialize_spec(ts) =~= render(ts[0]) + (seq![' '] + serialize_spec(rest)));
        lemma_lex_render(ts[0], seq![' '] + serialize_spec(rest));
        lemma_resume_space(ts[0], serialize_spec(rest));
        assert(seq![ts[0]] + rest =~= ts);
    }
}

spec fn state_ok(st: Lex) -> bool {
    match st {
        Lex::Idle => true,
        Lex::Num(n) => tok_ok(Tok::Int(n)),
        Lex::Word(w) => tok_ok(Tok::Word(w)),
        Lex::Text(s) => tok_ok(Tok::Str(s)),
    }
}

proof fn lemma_concat_ok(a: Seq<Tok>, b: Seq<Tok>)
    requires
        all_ok(a),
        all_ok(b),
    ensures
        all_ok(a + b),
{
    assert forall|i: int| 0 <= i < (a + b).len() implies tok_ok(#[trigger] (a + b)[i]) by {
        if i < a.len() {
            assert((a + b)[i] == a[i]);
        } else {
            assert((a + b)[i] == b[i - a.len()]);
        }
    }
}

proof fn lemma_text_push(t: Seq<char>, c: char)
    requires
        forall|i: int| #![trigger t[i]] 0 <= i < t.len() ==> t[i] != '"',
        c != '"',
    ensures
        forall|i: int| #![trigger t.push(c)[i]] 0 <= i < t.push(c).len() ==> t.push(c)[i] != '"',
{
    assert forall|i: int| #![trigger t.push(c)[i]] 0 <= i < t.push(c).len() implies t.push(c)[i] != '"' by {
        if i < t.len() {
            assert(t.push(c)[i] == t[i]);
        }
    }
}

proof fn lemma_step_ok(st: Lex, c: char)
    requires
        state_ok(st),
        lex_step(st, c) is Ok,
    ensures
        state_ok(lex_step(st, c)->Ok_0.0),
        all_ok(lex_step(st, c)->Ok_0.1),
{
    let (st2, e) = lex_step(st, c)->Ok_0;
    match st {
        Lex::Word(w) => {
            if in_word(c) {
                assert forall|i: int| 0 <= i < w.push(c).len() implies in_word(
                    #[trigger] w.push(c)[i],
                ) by {
                    if i < w.len() {
                        assert(w.push(c)[i] == w[i]);
                    }
                }
                assert(w.push(c)[0] == w[0]);
            } else {
                assert(tok_ok(seq![Tok::Word(w)][0]));
                assert(all_ok(seq![Tok::Word(w)]));
                assert(tok_ok(seq![Tok::Word(w)].push(Tok::Op(Operator::Plus))[0]));
            }
        },
        Lex::Text(t) => {
            if c != '"' {
                lemma_text_push(t, c);
            }
        },
        Lex::Num(n) => {
            if !is_digit(c) {
                assert(tok_ok(seq![Tok::Int(n)][0]));
            }
        },
        Lex::Idle => {
            if starts_word(c) {
                assert(seq![c][0] == c);
            }
        },
    }
    assert forall|i: int| 0 <= i < e.len() implies tok_ok(#[trigger] e[i]) by {
        match st {
            Lex::Num(n) => {
                if i == 0 {
                    assert(e[0] == Tok::Int(n));
                }
            },
            Lex::Word(w) => {
                if i == 0 {
                    assert(e[0] == Tok::Word(w));
                }
            },
            _ => {},
        }
    }
}

proof fn lemma_lex_output_ok(cs: Seq<char>, st: Lex)
    requires
        state_ok(st),
        lex_from(cs, st) is Ok,
    ensures
        all_ok(lex_from(cs, st)->Ok_0),
    decreases cs.len(),
{
    if cs.len() == 0 {
        let ts = lex_end(st)->Ok_0;
        assert forall|i: int| 0 <= i < ts.len() implies tok_ok(#[trigger] ts[i]) by {
            assert(i == 0);
        }
    } else {
        let (st2, e) = lex_step(st, cs[0])->Ok_0;
        lemma_step_ok(st, cs[0]);
        lemma_lex_output_ok(cs.drop_first(), st2);
        lemma_concat_ok(e, lex_from(cs.drop_first(), st2)->Ok_0);
    }
}

/// Round trip: re-serializing the tokens of a statement to their canonical surface form
/// and tokenizing that again gives the same tokens, so the two texts differ only in
/// whitespace and in how integers are spelled.
pub proof fn lemma_tokenize_round_trip(cs: Seq<char>)
    requires
        tokenize_spec(cs) is Ok,
    ensures
        tokenize_spec(serialize_spec(tokenize_spec(cs)->Ok_0)) == tokenize_spec(cs),
{
    lemma_lex_output_ok(cs, Lex::Idle);
    lemma_serialize_then_tokenize(tokenize_spec(cs)->Ok_0);
}

fn digit_str(d: u32) -> (r: &'static str)
    requires
        d < 10,
    ensures
        r@ == seq![digit_char(d as int)],
{
    proof {
        reveal_strlit("0");
        assert("0"@ =~= seq!['0']);
        reveal_strlit("1");
        assert("1"@ =~= seq!['1']);
        reveal_strlit("2");
        assert("2"@ =~= seq!['2']);
        reveal_strlit("3");
        assert("3"@ =~= seq!['3']);
        reveal_strlit("4");
        assert("4"@ =~= seq!['4']);
        reveal_strlit("5");
        assert("5"@ =~= seq!['5']);
        reveal_strlit("6");
        assert("6"@ =~= seq!['6']);
        reveal_strlit("7");
        assert("7"@ =~= seq!['7']);
        reveal_strlit("8");
        assert("8"@ =~= seq!['8']);
        reveal_strlit("9");
        assert("9"@ =~= seq!['9']);
    }
    if d == 0 {
        "0"
    } else if d == 1 {
        "1"
    } else if d == 2 {
        "2"
    } else if d == 3 {
        "3"
    } else if d == 4 {
        "4"
    } else if d == 5 {
        "5"
    } else if d == 6 {
        "6"
    } else if d == 7 {
        "7"
    } else if d == 8 {
        "8"
    } else {
        "9"
    }
}

fn push_decimal(s: &mut String, n: u32)
    ensures
        final(s)@ == old(s)@ + decimal(n as nat),
    decreases n,
{
    if n >= 10 {
        push_decimal(s, n / 10);
    }
    s.append(digit_str(n % 10));
    proof {
        if n < 10 {
            assert(old(s)@ + decimal(n as nat) =~= old(s)@ + seq![digit_char(n as int)]);
        } else {
            assert(decimal(n as nat) == decimal((n / 10) as nat).push(digit_char(n as int % 10)));
            assert(old(s)@ + decimal((n / 10) as nat) + seq![digit_char(n as int % 10)] =~= old(s)@
                + decimal(n as nat));
        }
    }
}

fn op_str(op: Operator) -> (r: &'static str)
    ensures
        r@ == seq![op_symbol(op)],
{
    proof {
        reveal_strlit("+");
        reveal_strlit("-");
        reveal_strlit("*");
        reveal_strlit("/");
        reveal_strlit("%");
        reveal_strlit("&");
        reveal_strlit("|");
        reveal_strlit("^");
        reveal_strlit("(");
        reveal_strlit(")");
        assert("+"@ =~= seq!['+']);
        assert("-"@ =~= seq!['-']);
        assert("*"@ =~= seq!['*']);
        assert("/"@ =~= seq!['/']);
        assert("%"@ =~= seq!['%']);
        assert("&"@ =~= seq!['&']);
        assert("|"@ =~= seq!['|']);
        assert("^"@ =~= seq!['^']);
        assert("("@ =~= seq!['(']);
        assert(")"@ =~= seq![')']);
    }
    match op {
        Operator::Plus => "+",
        Operator::Minus => "-",
        Operator::Mul => "*",
        Operator::Div => "/",
        Operator::Mod => "%",
        Operator::And => "&",
        Operator::Or => "|",
        Operator::Xor => "^",
        Operator::Open => "(",
        Operator::Closed => ")",
    }
}

/// Appends the canonical surface form of a token.
fn push_token(s: &mut String, t: &Token)
    ensures
        final(s)@ == old(s)@ + render(t@),
{
    proof {
        reveal_strlit("-");
        reveal_strlit("\"");
        assert("-"@ =~= seq!['-']);
        assert("\""@ =~= seq!['"']);
    }
    match t {
        Token::Op(op) => s.append(op_str(*op)),
        Token::Val(Value::Int(n)) => {
            if *n >= 0 {
                push_decimal(s, *n as u32);
            } else {
                s.append("-");
                let m = if *n == i32::MIN {
                    2147483648u32
                } else {
                    (-*n) as u32
                };
                push_decimal(s, m);
                assert(old(s)@ + seq!['-'] + decimal(m as nat) =~= old(s)@ + (seq!['-'] + decimal(
                    m as nat,
                )));
            }
        },
        Token::Val(Value::Word(w)) => s.append(w.as_str()),
        Token::Val(Value::Str(text)) => {
            s.append("\"");
            s.append(text.as_str());
            s.append("\"");
            assert(old(s)@ + seq!['"'] + text@ + seq!['"'] =~= old(s)@ + (seq!['"'] + text@
                + seq!['"']));
        },
    }
}

/// The canonical surface form of a token.
pub fn token_text(t: &Token) -> (r: String)
    ensures
        r@ == render(t@),
{
    let mut s = String::new();
    push_token(&mut s, t);
    assert(Seq::<char>::empty() + render(t@) =~= render(t@));
    s
}

spec fn rest_text(ts: Seq<Tok>, i: int) -> Seq<char> {
    if i >= ts.len() {
        Seq::empty()
    } else {
        seq![' '] + serialize_spec(ts.skip(i))
    }
}

/// The canonical surface form of a token sequence: the tokens' texts separated by
/// single spaces.
pub fn serialize(tokens: &Vec<Token>) -> (r: String)
    ensures
        r@ == serialize_spec(toks_view(tokens@)),
{
    let ghost ts = toks_view(tokens@);
    let mut s = String::new();
    if tokens.len() == 0 {
        return s;
    }
    push_token(&mut s, &tokens[0]);
    proof {
        assert(Seq::<char>::empty() + render(ts[0]) =~= render(ts[0]));
        if ts.len() == 1 {
            assert(s@ + rest_text(ts, 1) =~= s@);
        } else {
            assert(ts.drop_first() =~= ts.skip(1));
            assert(serialize_spec(ts) =~= s@ + rest_text(ts, 1));
        }
    }
    let mut i: usize = 1;
    while i < tokens.len()
        invariant
            1 <= i <= tokens@.len(),
            ts == toks_view(tokens@),
            serialize_spec(ts) == s@ + rest_text(ts, i as int),
        decreases tokens@.len() - i,
    {
        let ghost before = s@;
        s.append(" ");
        push_token(&mut s, &tokens[i]);
        proof {
            reveal_strlit(" ");
            assert(" "@ =~= seq![' ']);
            let tail = ts.skip(i as int);
            assert(tail[0] == ts[i as int]);
            if i + 1 == ts.len() {
                assert(tail.len() == 1);
                assert(s@ =~= before + rest_text(ts, i as int));
                assert(s@ + rest_text(ts, i + 1) =~= s@);
            } else {
                assert(tail.drop_first() =~= ts.skip(i + 1));
                assert(serialize_spec(tail) == render(tail[0]) + seq![' '] + serialize_spec(
                    tail.drop_first(),
                ));
                assert(before + rest_text(ts, i as int) =~= s@ + rest_text(ts, i + 1));
            }
        }
        i = i + 1;
    }
    proof {
        assert(s@ + rest_text(ts, i as int) =~= s@);
    }
    s
}

} // verus!
