use vstd::prelude::*;

verus! {

/// Arithmetic, bitwise and grouping operators of the expression language.
#[derive(Debug, Clone, Copy, PartialEq, Eq, Structural)]
pub enum Operator {
    Plus,
    Minus,
    Mul,
    Div,
    Mod,
    And,
    Or,
    Xor,
    Open,
    Closed,
}

/// A literal or a bare word as it appears in a statement.
#[derive(Debug)]
pub enum Value {
    Int(i32),
    Word(String),
    Str(String),
}

/// One lexical unit of a statement.
#[derive(Debug)]
pub enum Token {
    Op(Operator),
    Val(Value),
}

impl Clone for Value {
    fn clone(&self) -> (r: Value)
        ensures
            r == *self,
    {
        match self {
            Value::Int(n) => Value::Int(*n),
            Value::Word(w) => Value::Word(w.clone()),
            Value::Str(s) => Value::Str(s.clone()),
        }
    }
}

impl Clone for Token {
    fn clone(&self) -> (r: Token)
        ensures
            r == *self,
    {
        match self {
            Token::Op(op) => Token::Op(*op),
            Token::Val(v) => Token::Val(v.clone()),
        }
    }
}

/// The mathematical model of a token: words and strings as character sequences.
pub enum Tok {
    Op(Operator),
    Int(i32),
    Word(Seq<char>),
    Str(Seq<char>),
}

impl View for Token {
    type V = Tok;

    open spec fn view(&self) -> Tok {
        match self {
            Token::Op(op) => Tok::Op(*op),
            Token::Val(Value::Int(n)) => Tok::Int(*n),
            Token::Val(Value::Word(w)) => Tok::Word(w@),
            Token::Val(Value::Str(s)) => Tok::Str(s@),
        }
    }
}

/// The model of a token sequence.
pub open spec fn toks_view(v: Seq<Token>) -> Seq<Tok> {
    v.map_values(|t: Token| t@)
}

pub proof fn lemma_toks_view_push(v: Seq<Token>, t: Token)
    ensures
        toks_view(v.push(t)) == toks_view(v).push(t@),
{
    assert(toks_view(v.push(t)) =~= toks_view(v).push(t@));
}

/// The statement keywords, resolved from bare words.
#[derive(Debug, Clone, Copy, PartialEq, Eq, Structural)]
pub enum Keyword {
    Print,
    Newline,
    Goto,
    BranchIfZero,
    BranchIfNonZero,
    End,
}

/// The keyword that a word spells, if any.
pub open spec fn keyword_spec(w: Seq<char>) -> Option<Keyword> {
    if w == seq!['P', 'R', 'I', 'N', 'T'] {
        Some(Keyword::Print)
    } else if w == seq!['N', 'E', 'W', 'L'] {
        Some(Keyword::Newline)
    } else if w == seq!['G', 'O', 'T', 'O'] {
        Some(Keyword::Goto)
    } else if w == seq!['B', 'Z'] {
        Some(Keyword::BranchIfZero)
    } else if w == seq!['B', 'G'] {
        Some(Keyword::BranchIfNonZero)
    } else if w == seq!['E', 'N', 'D'] {
        Some(Keyword::End)
    } else {
        None
    }
}

/// The keyword that a token stands for, if it is a word spelling one.
pub open spec fn tok_keyword(t: Tok) -> Option<Keyword> {
    match t {
        Tok::Word(w) => keyword_spec(w),
        _ => None,
    }
}

/// Binding strength of an operator: grouping 0, additive 1, multiplicative and bitwise 2.
pub open spec fn prec(op: Operator) -> int {
    match op {
        Operator::Open | Operator::Closed => 0,
        Operator::Plus | Operator::Minus => 1,
        _ => 2,
    }
}

pub fn precedence(op: Operator) -> (r: i32)
    ensures
        r == prec(op),
{
    match op {
        Operator::Open => 0,
        Operator::Closed => 0,
        Operator::Plus => 1,
        Operator::Minus => 1,
        Operator::Mul => 2,
        Operator::Div => 2,
        Operator::Mod => 2,
        Operator::And => 2,
        Operator::Or => 2,
        Operator::Xor => 2,
    }
}

/// Whether the operator on top of the stack binds at least as tightly as `op`,
/// so that it must leave the stack before `op` is pushed.
pub open spec fn must_unwind(opstack: Seq<Operator>, op: Operator) -> bool {
    opstack.len() > 0 && prec(opstack.last()) >= prec(op)
}

pub fn unwindopstack(opstack: &Vec<Operator>, op: Operator) -> (r: bool)
    ensures
        r == must_unwind(opstack@, op),
{
    if opstack.len() == 0 {
        return false;
    }
    precedence(opstack[opstack.len() - 1]) >= precedence(op)
}

/// The text of a token that is a bare word.
pub fn token_to_string(tok: &Token) -> (r: Option<&String>)
    ensures
        r matches Some(w) ==> tok@ == Tok::Word(w@),
        r is None <==> !(tok@ is Word),
{
    match tok {
        Token::Val(Value::Word(w)) => Some(w),
        _ => None,
    }
}

/// Whether two character sequences are equal.
pub fn same_text(a: &str, b: &str) -> (r: bool)
    ensures
        r == (a@ == b@),
{
    let n = a.unicode_len();
    if n != b.unicode_len() {
        return false;
    }
    let mut i: usize = 0;
    while i < n
        invariant
            n == a@.len(),
            n == b@.len(),
            i <= n,
            a@.subrange(0, i as int) == b@.subrange(0, i as int),
        decreases n - i,
    {
        if a.get_char(i) != b.get_char(i) {
            return false;
        }
        assert(a@.subrange(0, i + 1) == a@.subrange(0, i as int).push(a@[i as int]));
        assert(b@.subrange(0, i + 1) == b@.subrange(0, i as int).push(b@[i as int]));
        i = i + 1;
    }
    assert(a@ == a@.subrange(0, n as int));
    assert(b@ == b@.subrange(0, n as int));
    true
}

/// The keyword that a word spells, if any.
pub fn keyword_of(w: &str) -> (r: Option<Keyword>)
    ensures
        r == keyword_spec(w@),
{
    proof {
        reveal_strlit("PRINT");
        reveal_strlit("NEWL");
        reveal_strlit("GOTO");
        reveal_strlit("BZ");
        reveal_strlit("BG");
        reveal_strlit("END");
        assert("PRINT"@ =~= seq!['P', 'R', 'I', 'N', 'T']);
        assert("NEWL"@ =~= seq!['N', 'E', 'W', 'L']);
        assert("GOTO"@ =~= seq!['G', 'O', 'T', 'O']);
        assert("BZ"@ =~= seq!['B', 'Z']);
        assert("BG"@ =~= seq!['B', 'G']);
        assert("END"@ =~= seq!['E', 'N', 'D']);
    }
    if same_text(w, "PRINT") {
        Some(Keyword::Print)
    } else if same_text(w, "NEWL") {
        Some(Keyword::Newline)
    } else if same_text(w, "GOTO") {
        Some(Keyword::Goto)
    } else if same_text(w, "BZ") {
        Some(Keyword::BranchIfZero)
    } else if same_text(w, "BG") {
        Some(Keyword::BranchIfNonZero)
    } else if same_text(w, "END") {
        Some(Keyword::End)
    } else {
        None
    }
}

/// The keyword that a token stands for, if any.
pub fn token_keyword(tok: &Token) -> (r: Option<Keyword>)
    ensures
        r == tok_keyword(tok@),
{
    match token_to_string(tok) {
        Some(w) => keyword_of(w.as_str()),
        None => None,
    }
}

} // verus!
