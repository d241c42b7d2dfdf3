use vstd::prelude::*;
use crate::error::{Error, ErrorKind};
use crate::eval::{Env, var_name};
use crate::instr::{InstrV, Instruction, build, find_keyword, first_keyword, return_instr};
use crate::lexer::{chars_of, tokenize, tokenize_spec};
use crate::postfix::{postfix_spec, to_postfix};
use crate::table::Table;
use crate::token::{Token, Value, tok_keyword, token_keyword, toks_view};

verus! {

/// What one statement contributes to a program.
pub enum Stmt {
    /// Nothing: the statement holds no tokens.
    Empty,
    /// An instruction to append.
    Instr(InstrV),
    /// A variable declared with the value zero.
    Declare(Seq<char>),
    /// A label declared at the current position.
    LabelDecl(Seq<char>),
}

/// The first position at or after `from` where the assignment operator `:=` begins.
pub open spec fn find_assign(cs: Seq<char>, from: int) -> Option<int>
    decreases cs.len() - from,
{
    if from < 0 || from + 1 >= cs.len() {
        None
    } else if cs[from] == ':' && cs[from + 1] == '=' {
        Some(from)
    } else {
        find_assign(cs, from + 1)
    }
}

/// The variable that the text left of `:=` names: exactly one sigil word.
pub open spec fn assign_target(cs: Seq<char>) -> Result<Seq<char>, ErrorKind> {
    match tokenize_spec(cs) {
        Err(e) => Err(e),
        Ok(t) => if t.len() > 1 {
            Err(ErrorKind::MultipleAssignmentError)
        } else if t.len() == 1 && t[0] is Word && var_name(t[0]->Word_0) is Some {
            Ok(var_name(t[0]->Word_0)->0)
        } else {
            Err(ErrorKind::SyntaxError)
        },
    }
}

/// The meaning of one statement's text (its terminator already removed).
pub open spec fn stmt_spec(cs: Seq<char>) -> Result<Stmt, ErrorKind> {
    match find_assign(cs, 0) {
        Some(k) => {
            let body = cs.subrange(k + 2, cs.len() as int);
            if find_assign(body, 0) is Some {
                Err(ErrorKind::MultipleAssignmentError)
            } else {
                match assign_target(cs.subrange(0, k)) {
                    Err(e) => Err(e),
                    Ok(name) => match tokenize_spec(body) {
                        Err(e) => Err(e),
                        Ok(t) => match postfix_spec(t) {
                            Err(e) => Err(e),
                            Ok(pf) => if first_keyword(pf, 0) is Some {
                                Err(ErrorKind::SyntaxError)
                            } else {
                                Ok(Stmt::Instr(InstrV::Mutate(name, pf)))
                            },
                        },
                    },
                }
            }
        },
        None => match tokenize_spec(cs) {
            Err(e) => Err(e),
            Ok(t) => if t.len() == 0 {
                Ok(Stmt::Empty)
            } else {
                match postfix_spec(t) {
                    Err(e) => Err(e),
                    Ok(pf) => if pf.len() == 0 {
                        Err(ErrorKind::SyntaxError)
                    } else if tok_keyword(pf[0]) is Some {
                        match build(pf, 0) {
                            Ok(i) => Ok(Stmt::Instr(i)),
                            Err(e) => Err(e),
                        }
                    } else if pf.len() == 1 && pf[0] is Word {
                        match var_name(pf[0]->Word_0) {
                            Some(n) => Ok(Stmt::Declare(n)),
                            None => Ok(Stmt::LabelDecl(pf[0]->Word_0)),
                        }
                    } else {
                        Err(ErrorKind::SyntaxError)
                    },
                }
            },
        },
    }
}

/// The model of a program: its instructions, the statement each came from, the label
/// table and the variables declared before the run.
pub struct ProgModel {
    pub code: Seq<InstrV>,
    pub lines: Seq<usize>,
    pub labels: Map<Seq<char>, usize>,
    pub vars: Env,
}

/// Adds statement number `line` to a program; the flag tells whether it ends the program.
/// A label maps to the position right after its marker instruction; declaring a
/// label twice is rejected.
pub open spec fn apply_stmt(m: ProgModel, cs: Seq<char>, line: usize) -> Result<
    (ProgModel, bool),
    Error,
> {
    match stmt_spec(cs) {
        Err(k) => Err(Error { kind: k, line }),
        Ok(Stmt::Empty) => Ok((m, false)),
        Ok(Stmt::Instr(i)) => Ok(
            (
                ProgModel {
                    code: m.code.push(i),
                    lines: m.lines.push(line),
                    labels: m.labels,
                    vars: m.vars,
                },
                i == InstrV::End,
            ),
        ),
        Ok(Stmt::Declare(n)) => Ok(
            (
                ProgModel { code: m.code, lines: m.lines, labels: m.labels, vars: m.vars.insert(n, 0) },
                false,
            ),
        ),
        Ok(Stmt::LabelDecl(w)) => if m.labels.contains_key(w) {
            Err(Error { kind: ErrorKind::DuplicateLabelError, line })
        } else {
            Ok(
                (
                    ProgModel {
                        code: m.code.push(InstrV::Label),
                        lines: m.lines.push(line),
                        labels: m.labels.insert(w, (m.code.len() + 1) as usize),
                        vars: m.vars,
                    },
                    false,
                ),
            )
        },
    }
}

/// The program that a sequence of statements compiles to, numbering them from `line`;
/// compilation stops after `END`.
pub open spec fn compile_spec(stmts: Seq<Seq<char>>, m: ProgModel, line: int) -> Result<
    ProgModel,
    Error,
>
    decreases stmts.len(),
{
    if stmts.len() == 0 {
        Ok(m)
    } else {
        match apply_stmt(m, stmts[0], line as usize) {
            Err(e) => Err(e),
            Ok((m2, true)) => Ok(m2),
            Ok((m2, false)) => compile_spec(stmts.drop_first(), m2, line + 1),
        }
    }
}

pub open spec fn empty_model() -> ProgModel {
    ProgModel { code: Seq::empty(), lines: Seq::empty(), labels: Map::empty(), vars: Map::empty() }
}

pub open spec fn texts_view(v: Seq<String>) -> Seq<Seq<char>> {
    v.map_values(|s: String| s@)
}

/// A compiled program: instructions in source order, the statement number of each,
/// the label table and the declared variables.
pub struct Program {
    instructions: Vec<Instruction>,
    lines: Vec<usize>,
    labels: Table<usize>,
    vars: Table<i32>,
}

impl Program {
    pub closed spec fn view(&self) -> ProgModel {
        ProgModel {
            code: self.instructions@.map_values(|i: Instruction| i@),
            lines: self.lines@,
            labels: self.labels.view(),
            vars: self.vars.view(),
        }
    }

    /// The program's invariant: well-formed tables and one line number per instruction.
    pub closed spec fn wf(&self) -> bool {
        &&& self.labels.wf()
        &&& self.vars.wf()
        &&& self.lines@.len() == self.instructions@.len()
    }

    /// A program with no statements.
    pub fn new() -> (r: Program)
        ensures
            r.wf(),
            r.view() == empty_model(),
    {
        let r = Program {
            instructions: Vec::new(),
            lines: Vec::new(),
            labels: Table::new(),
            vars: Table::new(),
        };
        assert(r.view().code =~= Seq::<InstrV>::empty());
        r
    }

    /// The number of instructions.
    pub fn len(&self) -> (r: usize)
        ensures
            r == self.view().code.len(),
    {
        self.instructions.len()
    }

    /// The instruction at position `i`.
    pub fn instruction(&self, i: usize) -> (r: &Instruction)
        requires
            i < self.view().code.len(),
        ensures
            r@ == self.view().code[i as int],
    {
        &self.instructions[i]
    }

    /// The statement number of the instruction at position `i`.
    pub fn line_of(&self, i: usize) -> (r: usize)
        requires
            self.wf(),
            i < self.view().code.len(),
        ensures
            r == self.view().lines[i as int],
    {
        self.lines[i]
    }

    /// The position that a label refers to.
    pub fn label(&self, name: &str) -> (r: Option<usize>)
        requires
            self.wf(),
        ensures
            r == (if self.view().labels.contains_key(name@) {
                Some(self.view().labels[name@])
            } else {
                None
            }),
    {
        self.labels.get(name)
    }

    /// The variables as declared before the run.
    pub fn declared(&self) -> (r: &Table<i32>)
        ensures
            r.view() == self.view().vars,
            self.wf() ==> r.wf(),
    {
        &self.vars
    }

    /// Adds statement number `line`; returns whether the statement ends the program.
    /// On an error the program is left as it was.
    pub fn add_statement(&mut self, text: &str, line: usize) -> (r: Result<bool, Error>)
        requires
            old(self).wf(),
        ensures
            final(self).wf(),
            match apply_stmt(old(self).view(), text@, line) {
                Ok((m, finished)) => r == Ok::<bool, Error>(finished) && final(self).view() == m,
                Err(e) => r == Err::<bool, Error>(e) && final(self).view() == old(self).view(),
            },
    {
        let stmt = match parse_statement(text) {
            Ok(s) => s,
            Err(kind) => return Err(Error { kind, line }),
        };
        match stmt {
            Statement::Empty => Ok(false),
            Statement::Instr(i) => {
                let finished = match i {
                    Instruction::End => true,
                    _ => false,
                };
                proof {
                    assert(finished == (i@ == InstrV::End));
                }
                self.push_instr(i, line);
                Ok(finished)
            },
            Statement::Declare(name) => {
                self.vars.set(name.as_str(), 0);
                Ok(false)
            },
            Statement::LabelDecl(w) => {
                if self.labels.get(w.as_str()).is_some() {
                    return Err(Error { kind: ErrorKind::DuplicateLabelError, line });
                }
                self.push_instr(Instruction::Label, line);
                let at = self.instructions.len();
                self.labels.set(w.as_str(), at);
                Ok(false)
            },
        }
    }

    fn push_instr(&mut self, i: Instruction, line: usize)
        requires
            old(self).wf(),
        ensures
            final(self).wf(),
            final(self).view() == (ProgModel {
                code: old(self).view().code.push(i@),
                lines: old(self).view().lines.push(line),
                labels: old(self).view().labels,
                vars: old(self).view().vars,
            }),
    {
        self.instructions.push(i);
        self.lines.push(line);
        assert(self.view().code =~= old(self).view().code.push(i@));
    }
}

/// The executable form of what one statement contributes.
pub enum Statement {
    Empty,
    Instr(Instruction),
    Declare(String),
    LabelDecl(String),
}

impl View for Statement {
    type V = Stmt;

    open spec fn view(&self) -> Stmt {
        match self {
            Statement::Empty => Stmt::Empty,
            Statement::Instr(i) => Stmt::Instr(i@),
            Statement::Declare(n) => Stmt::Declare(n@),
            Statement::LabelDecl(w) => Stmt::LabelDecl(w@),
        }
    }
}

fn find_assign_exec(cs: &Vec<char>) -> (r: Option<usize>)
    ensures
        r matches Some(k) ==> find_assign(cs@, 0) == Some(k as int) && k + 1 < cs@.len(),
        r is None ==> find_assign(cs@, 0) is None,
{
    let mut i: usize = 0;
    while i < cs.len() && cs.len() - i > 1
        invariant
            i <= cs@.len(),
            find_assign(cs@, 0) == find_assign(cs@, i as int),
        decreases cs@.len() - i,
    {
        if cs[i] == ':' && cs[i + 1] == '=' {
            return Some(i);
        }
        i = i + 1;
    }
    None
}

/// The variable named left of `:=`.
fn parse_target(text: &str) -> (r: Result<String, ErrorKind>)
    ensures
        match r {
            Ok(n) => assign_target(text@) == Ok::<Seq<char>, ErrorKind>(n@),
            Err(e) => assign_target(text@) == Err::<Seq<char>, ErrorKind>(e),
        },
{
    let toks = match tokenize(text) {
        Ok(t) => t,
        Err(e) => return Err(e),
    };
    if toks.len() > 1 {
        return Err(ErrorKind::MultipleAssignmentError);
    }
    if toks.len() == 0 {
        return Err(ErrorKind::SyntaxError);
    }
    assert(toks_view(toks@)[0] == toks@[0]@);
    match &toks[0] {
        Token::Val(Value::Word(w)) => {
            let ws = w.as_str();
            let n = ws.unicode_len();
            if n > 0 && ws.get_char(0) == '$' {
                let name = ws.substring_char(1, n);
                assert(name@ =~= w@.drop_first());
                Ok(name.to_string())
            } else {
                Err(ErrorKind::SyntaxError)
            }
        },
        _ => Err(ErrorKind::SyntaxError),
    }
}

/// Whether a parse result matches its model.
pub open spec fn stmt_matches(r: Result<Statement, ErrorKind>, m: Result<Stmt, ErrorKind>) -> bool {
    match r {
        Ok(s) => m == Ok::<Stmt, ErrorKind>(s@),
        Err(e) => m == Err::<Stmt, ErrorKind>(e),
    }
}

/// Compiles one statement: an assignment, a keyword statement, or a bare word that
/// declares a variable (with the sigil) or a label (without it).
pub fn parse_statement(text: &str) -> (r: Result<Statement, ErrorKind>)
    ensures
        stmt_matches(r, stmt_spec(text@)),
{
    let cs = chars_of(text);
    let n = cs.len();
    match find_assign_exec(&cs) {
        Some(k) => {
            let body = text.substring_char(k + 2, n);
            let body_cs = chars_of(body);
            if find_assign_exec(&body_cs).is_some() {
                return Err(ErrorKind::MultipleAssignmentError);
            }
            let target = text.substring_char(0, k);
            let name = match parse_target(target) {
                Ok(name) => name,
                Err(e) => return Err(e),
            };
            let toks = match tokenize(body) {
                Ok(t) => t,
                Err(e) => return Err(e),
            };
            let pf = match to_postfix(&toks) {
                Ok(pf) => pf,
                Err(e) => return Err(e),
            };
            if find_keyword(&pf, 0).is_some() {
                return Err(ErrorKind::SyntaxError);
            }
            Ok(Statement::Instr(Instruction::Mutate(name, pf)))
        },
        None => {
            let toks = match tokenize(text) {
                Ok(t) => t,
                Err(e) => return Err(e),
            };
            if toks.len() == 0 {
                return Ok(Statement::Empty);
            }
            let pf = match to_postfix(&toks) {
                Ok(pf) => pf,
                Err(e) => return Err(e),
            };
            if pf.len() == 0 {
                return Err(ErrorKind::SyntaxError);
            }
            assert(toks_view(pf@)[0] == pf@[0]@);
            if token_keyword(&pf[0]).is_some() {
                return match return_instr(&pf, 0) {
                    Ok(i) => Ok(Statement::Instr(i)),
                    Err(e) => Err(e),
                };
            }
            if pf.len() != 1 {
                return Err(ErrorKind::SyntaxError);
            }
            match &pf[0] {
                Token::Val(Value::Word(w)) => {
                    let ws = w.as_str();
                    let len = ws.unicode_len();
                    if len > 0 && ws.get_char(0) == '$' {
                        let name = ws.substring_char(1, len);
                        assert(name@ =~= w@.drop_first());
                        Ok(Statement::Declare(name.to_string()))
                    } else {
                        Ok(Statement::LabelDecl(w.clone()))
                    }
                },
                _ => Err(ErrorKind::SyntaxError),
            }
        },
    }
}

/// Compiles a sequence of statements, numbered from 1, into a program; statements
/// after `END` are not read.
pub fn compile(statements: &Vec<String>) -> (r: Result<Program, Error>)
    ensures
        match compile_spec(texts_view(statements@), empty_model(), 1) {
            Ok(m) => r matches Ok(p) && p.wf() && p.view() == m,
            Err(e) => r matches Err(x) && x == e,
        },
{
    let ghost all = texts_view(statements@);
    let mut program = Program::new();
    let mut i: usize = 0;
    proof {
        assert(all.skip(0) =~= all);
    }
    while i < statements.len()
        invariant
            i <= statements@.len(),
            all == texts_view(statements@),
            program.wf(),
            compile_spec(all, empty_model(), 1) == compile_spec(
                all.skip(i as int),
                program.view(),
                i + 1,
            ),
        decreases statements@.len() - i,
    {
        proof {
            assert(all.skip(i as int).drop_first() =~= all.skip(i + 1));
            assert(all.skip(i as int)[0] == statements@[i as int]@);
        }
        match program.add_statement(statements[i].as_str(), i + 1) {
            Ok(true) => return Ok(program),
            Ok(false) => {},
            Err(e) => return Err(e),
        }
        i = i + 1;
    }
    proof {
        assert(all.skip(i as int).len() == 0);
    }
    Ok(program)
}

/// A label that is already declared cannot be declared again: the statement is
/// rejected with `DuplicateLabelError` while compiling, before any execution.
pub proof fn lemma_label_redeclaration_rejected(
    m: ProgModel,
    cs: Seq<char>,
    line: usize,
    label: Seq<char>,
)
    requires
        stmt_spec(cs) == Ok::<Stmt, ErrorKind>(Stmt::LabelDecl(label)),
        m.labels.contains_key(label),
    ensures
        apply_stmt(m, cs, line) == Err::<(ProgModel, bool), Error>(
            Error { kind: ErrorKind::DuplicateLabelError, line },
        ),
{
}

/// Compiling a statement never forgets a label, so a label declared by an earlier
/// statement stays declared for every later one.
pub proof fn lemma_labels_persist(m: ProgModel, cs: Seq<char>, line: usize, label: Seq<char>)
    requires
        m.labels.contains_key(label),
        apply_stmt(m, cs, line) is Ok,
    ensures
        apply_stmt(m, cs, line)->Ok_0.0.labels.contains_key(label),
{
}

/// Pieces of text joined with the statement terminator `;` between them.
pub open spec fn join_statements(ps: Seq<Seq<char>>) -> Seq<char>
    decreases ps.len(),
{
    if ps.len() == 0 {
        Seq::empty()
    } else if ps.len() == 1 {
        ps[0]
    } else {
        join_statements(ps.drop_last()) + seq![';'] + ps.last()
    }
}

pub open spec fn no_terminator(s: Seq<char>) -> bool {
    forall|i: int| 0 <= i < s.len() ==> #[trigger] s[i] != ';'
}

/// Splits program text at each `;` into the statements' texts; the text after the last
/// terminator is the last piece.
pub fn split_statements(text: &str) -> (r: Vec<String>)
    ensures
        r@.len() >= 1,
        join_statements(texts_view(r@)) == text@,
        forall|i: int| 0 <= i < r@.len() ==> no_terminator(#[trigger] r@[i]@),
{
    let cs = chars_of(text);
    let ghost s = text@;
    let mut pieces: Vec<String> = Vec::new();
    let mut start: usize = 0;
    let mut i: usize = 0;
    while i < cs.len()
        invariant
            cs@ == s,
            s == text@,
            start <= i <= s.len(),
            pieces@.len() == 0 ==> start == 0,
            pieces@.len() > 0 ==> join_statements(texts_view(pieces@)) + seq![';'] == s.subrange(
                0,
                start as int,
            ),
            no_terminator(s.subrange(start as int, i as int)),
            forall|j: int| 0 <= j < pieces@.len() ==> no_terminator(#[trigger] pieces@[j]@),
        decreases s.len() - i,
    {
        if cs[i] == ';' {
            let piece = text.substring_char(start, i).to_string();
            let ghost old_pieces = pieces@;
            pieces.push(piece);
            proof {
                let tv = texts_view(pieces@);
                assert(tv.drop_last() =~= texts_view(old_pieces));
                assert(tv.last() == piece@);
                if old_pieces.len() == 0 {
                    assert(join_statements(tv) == piece@);
                    assert(piece@ + seq![';'] =~= s.subrange(0, i + 1));
                } else {
                    assert(join_statements(tv) + seq![';'] =~= s.subrange(0, i + 1));
                }
                assert(s.subrange(i + 1, i + 1) =~= Seq::<char>::empty());
            }
            start = i + 1;
        } else {
            assert(s.subrange(start as int, i + 1) =~= s.subrange(start as int, i as int).push(
                cs[i as int],
            ));
        }
        i = i + 1;
    }
    let last = text.substring_char(start, cs.len()).to_string();
    let ghost old_pieces = pieces@;
    pieces.push(last);
    proof {
        let tv = texts_view(pieces@);
        assert(tv.drop_last() =~= texts_view(old_pieces));
        if old_pieces.len() == 0 {
            assert(last@ =~= s);
        } else {
            assert(join_statements(tv) =~= s);
        }
    }
    pieces
}

} // verus!
