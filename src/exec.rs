use vstd::prelude::*;
use crate::error::{Error, ErrorKind};
use crate::eval::{
    Env, EvalV, Evaluated, apply_op, eval_finish, eval_from, eval_spec, eval_tok, evalrpn,
    var_name,
};
use crate::token::{Operator, Tok};
use crate::instr::{InstrV, Instruction};
use crate::program::{ProgModel, Program};
use crate::table::Table;

verus! {

/// One piece of program output.
#[derive(Debug)]
pub enum Output {
    /// A number, written in decimal.
    Number(i32),
    /// A string, written verbatim.
    Text(String),
    /// A line break.
    Newline,
}

/// The model of an output piece.
pub enum OutV {
    Number(i32),
    Text(Seq<char>),
    Newline,
}

impl View for Output {
    type V = OutV;

    open spec fn view(&self) -> OutV {
        match self {
            Output::Number(n) => OutV::Number(*n),
            Output::Text(s) => OutV::Text(s@),
            Output::Newline => OutV::Newline,
        }
    }
}

pub open spec fn out_view(o: Option<Output>) -> Option<OutV> {
    match o {
        Some(x) => Some(x@),
        None => None,
    }
}

/// Where control goes after an instruction.
#[derive(Debug, Clone, Copy, PartialEq, Eq, Structural)]
pub enum Effect {
    /// To the next instruction.
    Next,
    /// To the given position.
    Jump(usize),
    /// Nowhere: the run stops.
    Halt,
}

/// Executes one instruction against the label table and the variables: the control
/// effect, the variables afterwards and what is written. A branch runs its body as a
/// single instruction, whose effect (a jump, say) becomes the branch's.
pub open spec fn exec_spec(i: InstrV, labels: Map<Seq<char>, usize>, env: Env) -> Result<
    (Effect, Env, Option<OutV>),
    ErrorKind,
>
    decreases i,
{
    match i {
        InstrV::Print(e) => match eval_spec(e, env) {
            Ok(EvalV::Number(n)) => Ok((Effect::Next, env, Some(OutV::Number(n)))),
            Ok(EvalV::Text(s)) => Ok((Effect::Next, env, Some(OutV::Text(s)))),
            Err(k) => Err(k),
        },
        InstrV::Newline => Ok((Effect::Next, env, Some(OutV::Newline))),
        InstrV::Goto(l) => if labels.contains_key(l) {
            Ok((Effect::Jump(labels[l]), env, None))
        } else {
            Err(ErrorKind::UndefinedLabelError)
        },
        InstrV::BranchIfZero(e, body) => match eval_spec(e, env) {
            Ok(EvalV::Number(n)) => if n == 0 {
                exec_spec(*body, labels, env)
            } else {
                Ok((Effect::Next, env, None))
            },
            Ok(EvalV::Text(_)) => Ok((Effect::Next, env, None)),
            Err(k) => Err(k),
        },
        InstrV::BranchIfNonZero(e, body) => match eval_spec(e, env) {
            Ok(EvalV::Number(n)) => if n > 0 {
                exec_spec(*body, labels, env)
            } else {
                Ok((Effect::Next, env, None))
            },
            Ok(EvalV::Text(_)) => Ok((Effect::Next, env, None)),
            Err(k) => Err(k),
        },
        InstrV::Label => Ok((Effect::Next, env, None)),
        InstrV::Mutate(n, e) => match eval_spec(e, env) {
            Ok(EvalV::Number(v)) => Ok((Effect::Next, env.insert(n, v), None)),
            Ok(EvalV::Text(_)) => Err(ErrorKind::TypeConflictError),
            Err(k) => Err(k),
        },
        InstrV::End => Ok((Effect::Halt, env, None)),
    }
}

/// The model of a running program's state.
pub struct MachineV {
    pub pc: usize,
    pub vars: Env,
    pub halted: bool,
}

/// The run is over: stopped by `END`, or the counter has left the program.
pub open spec fn finished(p: ProgModel, st: MachineV) -> bool {
    st.halted || st.pc >= p.code.len()
}

/// One transition of the executor: run the instruction at the counter and move the
/// counter on, or jump, or stop. A failure carries the instruction's statement number.
pub open spec fn step_spec(p: ProgModel, st: MachineV) -> Result<(MachineV, Option<OutV>), Error> {
    if finished(p, st) {
        Ok((st, None))
    } else {
        match exec_spec(p.code[st.pc as int], p.labels, st.vars) {
            Err(k) => Err(Error { kind: k, line: p.lines[st.pc as int] }),
            Ok((eff, env, out)) => {
                let next = match eff {
                    Effect::Next => MachineV { pc: (st.pc + 1) as usize, vars: env, halted: false },
                    Effect::Jump(t) => MachineV { pc: t, vars: env, halted: false },
                    Effect::Halt => MachineV { pc: st.pc, vars: env, halted: true },
                };
                Ok((next, out))
            },
        }
    }
}

/// The state in which a program starts: at its first instruction, with its declared variables.
pub open spec fn start_spec(p: ProgModel) -> MachineV {
    MachineV { pc: 0, vars: p.vars, halted: false }
}

/// The output and outcome of at most `fuel` steps: `Ok(true)` when the run finished,
/// `Ok(false)` when the steps ran out first, or the error that aborted it.
pub open spec fn run_spec(p: ProgModel, st: MachineV, fuel: nat) -> (Seq<OutV>, Result<bool, Error>)
    decreases fuel,
{
    if finished(p, st) {
        (Seq::empty(), Ok(true))
    } else if fuel == 0 {
        (Seq::empty(), Ok(false))
    } else {
        match step_spec(p, st) {
            Err(e) => (Seq::empty(), Err(e)),
            Ok((st2, out)) => {
                let rest = run_spec(p, st2, (fuel - 1) as nat);
                let here = match out {
                    Some(o) => seq![o],
                    None => Seq::empty(),
                };
                (here + rest.0, rest.1)
            },
        }
    }
}

/// The state of a running program.
pub struct Machine {
    pc: usize,
    vars: Table<i32>,
    halted: bool,
}

impl Machine {
    pub closed spec fn view(&self) -> MachineV {
        MachineV { pc: self.pc, vars: self.vars.view(), halted: self.halted }
    }

    pub closed spec fn wf(&self) -> bool {
        self.vars.wf()
    }

    /// The state in which `program` starts.
    pub fn start(program: &Program) -> (r: Machine)
        requires
            program.wf(),
        ensures
            r.wf(),
            r.view() == start_spec(program.view()),
    {
        Machine { pc: 0, vars: program.declared().copy(), halted: false }
    }

    /// The position of the next instruction.
    pub fn pc(&self) -> (r: usize)
        ensures
            r == self.view().pc,
    {
        self.pc
    }

    /// The current value of a variable (named without its sigil).
    pub fn variable(&self, name: &str) -> (r: Option<i32>)
        requires
            self.wf(),
        ensures
            r == (if self.view().vars.contains_key(name@) {
                Some(self.view().vars[name@])
            } else {
                None
            }),
    {
        self.vars.get(name)
    }

    /// Whether the run is over.
    pub fn is_finished(&self, program: &Program) -> (r: bool)
        ensures
            r == finished(program.view(), self.view()),
    {
        self.halted || self.pc >= program.len()
    }
}

/// Whether an executable instruction outcome matches its model.
pub open spec fn exec_matches(
    r: Result<(Effect, Option<Output>), ErrorKind>,
    env: Env,
    m: Result<(Effect, Env, Option<OutV>), ErrorKind>,
) -> bool {
    match r {
        Ok((eff, out)) => m == Ok::<(Effect, Env, Option<OutV>), ErrorKind>((eff, env, out_view(out))),
        Err(k) => m == Err::<(Effect, Env, Option<OutV>), ErrorKind>(k),
    }
}

/// Executes one instruction, recursing into a branch body.
pub fn exec_instr(i: &Instruction, program: &Program, vars: &mut Table<i32>) -> (r: Result<
    (Effect, Option<Output>),
    ErrorKind,
>)
    requires
        program.wf(),
        old(vars).wf(),
    ensures
        final(vars).wf(),
        exec_matches(r, final(vars).view(), exec_spec(i@, program.view().labels, old(vars).view())),
    decreases i,
{
    match i {
        Instruction::Print(e) => match evalrpn(e, vars) {
            Ok(Evaluated::Number(n)) => Ok((Effect::Next, Some(Output::Number(n)))),
            Ok(Evaluated::Text(s)) => Ok((Effect::Next, Some(Output::Text(s)))),
            Err(k) => Err(k),
        },
        Instruction::Newline => Ok((Effect::Next, Some(Output::Newline))),
        Instruction::Goto(l) => match program.label(l.as_str()) {
            Some(t) => Ok((Effect::Jump(t), None)),
            None => Err(ErrorKind::UndefinedLabelError),
        },
        Instruction::BranchIfZero(e, body) => match evalrpn(e, vars) {
            Ok(Evaluated::Number(n)) => {
                if n == 0 {
                    exec_instr(body, program, vars)
                } else {
                    Ok((Effect::Next, None))
                }
            },
            Ok(Evaluated::Text(_)) => Ok((Effect::Next, None)),
            Err(k) => Err(k),
        },
        Instruction::BranchIfNonZero(e, body) => match evalrpn(e, vars) {
            Ok(Evaluated::Number(n)) => {
                if n > 0 {
                    exec_instr(body, program, vars)
                } else {
                    Ok((Effect::Next, None))
                }
            },
            Ok(Evaluated::Text(_)) => Ok((Effect::Next, None)),
            Err(k) => Err(k),
        },
        Instruction::Label => Ok((Effect::Next, None)),
        Instruction::Mutate(n, e) => match evalrpn(e, vars) {
            Ok(Evaluated::Number(v)) => {
                vars.set(n.as_str(), v);
                Ok((Effect::Next, None))
            },
            Ok(Evaluated::Text(_)) => Err(ErrorKind::TypeConflictError),
            Err(k) => Err(k),
        },
        Instruction::End => Ok((Effect::Halt, None)),
    }
}

/// Advances a running program by one instruction and returns what it wrote. A finished
/// run stays as it is.
pub fn step(program: &Program, m: &mut Machine) -> (r: Result<Option<Output>, Error>)
    requires
        program.wf(),
        old(m).wf(),
    ensures
        final(m).wf(),
        match step_spec(program.view(), old(m).view()) {
            Ok((st, out)) => r matches Ok(o) && out_view(o) == out && final(m).view() == st,
            Err(e) => r == Err::<Option<Output>, Error>(e),
        },
{
    let pc = m.pc;
    if m.halted || pc >= program.len() {
        return Ok(None);
    }
    match exec_instr(program.instruction(pc), program, &mut m.vars) {
        Err(kind) => Err(Error { kind, line: program.line_of(pc) }),
        Ok((eff, out)) => {
            match eff {
                Effect::Next => {
                    m.pc = pc + 1;
                },
                Effect::Jump(t) => {
                    m.pc = t;
                },
                Effect::Halt => {
                    m.halted = true;
                },
            }
            Ok(out)
        },
    }
}

pub open spec fn outs_view(v: Seq<Output>) -> Seq<OutV> {
    v.map_values(|o: Output| o@)
}

/// Runs a program from its start for at most `max_steps` instructions. Returns what it
/// wrote and how it ended: `Ok(true)` when it finished, `Ok(false)` when the steps ran
/// out, or the error that aborted it; the output before an error is kept.
pub fn evalprogram(program: &Program, max_steps: usize) -> (r: (Vec<Output>, Result<bool, Error>))
    requires
        program.wf(),
    ensures
        outs_view(r.0@) == run_spec(program.view(), start_spec(program.view()), max_steps as nat).0,
        r.1 == run_spec(program.view(), start_spec(program.view()), max_steps as nat).1,
{
    let ghost p = program.view();
    let mut m = Machine::start(program);
    let mut out: Vec<Output> = Vec::new();
    let mut fuel = max_steps;
    proof {
        let total = run_spec(p, start_spec(p), max_steps as nat);
        assert(outs_view(out@) + total.0 =~= total.0);
    }
    loop
        invariant
            p == program.view(),
            program.wf(),
            m.wf(),
            run_spec(p, start_spec(p), max_steps as nat) == (
                outs_view(out@) + run_spec(p, m.view(), fuel as nat).0,
                run_spec(p, m.view(), fuel as nat).1,
            ),
        decreases fuel,
    {
        if m.is_finished(program) {
            assert(outs_view(out@) + Seq::<OutV>::empty() =~= outs_view(out@));
            return (out, Ok(true));
        }
        if fuel == 0 {
            assert(outs_view(out@) + Seq::<OutV>::empty() =~= outs_view(out@));
            return (out, Ok(false));
        }
        let ghost before = outs_view(out@);
        let ghost st = m.view();
        match step(program, &mut m) {
            Err(e) => {
                assert(outs_view(out@) + Seq::<OutV>::empty() =~= outs_view(out@));
                return (out, Err(e));
            },
            Ok(o) => {
                let ghost rest = run_spec(p, m.view(), (fuel - 1) as nat);
                match o {
                    Some(x) => {
                        assert(outs_view(out@.push(x)) =~= before.push(x@));
                        assert(before + (seq![x@] + rest.0) =~= before.push(x@) + rest.0);
                        out.push(x);
                    },
                    None => {
                        assert(before + (Seq::<OutV>::empty() + rest.0) =~= before + rest.0);
                    },
                }
            },
        }
        fuel = fuel - 1;
    }
}

/// Assignment followed by reference returns the assigned value: once a step has run
/// `$name := e` and `e` evaluated to `v`, the expression `$name` evaluates to `v`.
pub proof fn lemma_assignment_then_reference(
    p: ProgModel,
    st: MachineV,
    name: Seq<char>,
    e: Seq<Tok>,
    v: i32,
)
    requires
        !finished(p, st),
        p.code[st.pc as int] == InstrV::Mutate(name, e),
        eval_spec(e, st.vars) == Ok::<EvalV, ErrorKind>(EvalV::Number(v)),
    ensures
        step_spec(p, st) matches Ok((st2, out)) && out is None && eval_spec(seq![Tok::Word(seq!['$'] + name)], st2.vars) == Ok::<EvalV, ErrorKind>(
            EvalV::Number(v),
        ),
{
    let env = st.vars.insert(name, v);
    let w = seq!['$'] + name;
    assert(w.drop_first() =~= name);
    assert(var_name(w) == Some(name));
    let t = seq![Tok::Word(w)];
    let st1 = (Seq::<i32>::empty().push(v), None::<Seq<char>>);
    assert(eval_tok(Tok::Word(w), env, (Seq::empty(), None)) == Ok::<
        (Seq<i32>, Option<Seq<char>>),
        ErrorKind,
    >(st1));
    assert(t.drop_first() =~= Seq::<Tok>::empty());
    assert(eval_from(t.drop_first(), env, st1) == Ok::<(Seq<i32>, Option<Seq<char>>), ErrorKind>(
        st1,
    ));
    assert(t[0] == Tok::Word(w));
    assert(eval_from(t, env, (Seq::empty(), None)) == Ok::<
        (Seq<i32>, Option<Seq<char>>),
        ErrorKind,
    >(st1));
    assert(eval_finish(st1) == Ok::<EvalV, ErrorKind>(EvalV::Number(v)));
    assert(exec_spec(p.code[st.pc as int], p.labels, st.vars) == Ok::<
        (Effect, Env, Option<OutV>),
        ErrorKind,
    >((Effect::Next, env, None)));
}

/// A jump moves the counter straight to the position its label names and writes
/// nothing, so the statements in between are not run.
pub proof fn lemma_goto_skips(p: ProgModel, st: MachineV, label: Seq<char>)
    requires
        !finished(p, st),
        p.code[st.pc as int] == InstrV::Goto(label),
        p.labels.contains_key(label),
    ensures
        step_spec(p, st) == Ok::<(MachineV, Option<OutV>), Error>(
            (MachineV { pc: p.labels[label], vars: st.vars, halted: false }, None),
        ),
{
}

/// `BZ` runs its body exactly when the condition evaluates to zero; for any other
/// value the body is skipped and nothing changes.
pub proof fn lemma_branch_if_zero(
    cond: Seq<Tok>,
    body: InstrV,
    labels: Map<Seq<char>, usize>,
    env: Env,
)
    ensures
        eval_spec(cond, env) == Ok::<EvalV, ErrorKind>(EvalV::Number(0)) ==> exec_spec(
            InstrV::BranchIfZero(cond, Box::new(body)),
            labels,
            env,
        ) == exec_spec(body, labels, env),
        eval_spec(cond, env) is Ok && eval_spec(cond, env) != Ok::<EvalV, ErrorKind>(
            EvalV::Number(0),
        ) ==> exec_spec(InstrV::BranchIfZero(cond, Box::new(body)), labels, env) == Ok::<
            (Effect, Env, Option<OutV>),
            ErrorKind,
        >((Effect::Next, env, None)),
{
}

/// `BG` runs its body exactly when the condition evaluates to a positive number; for
/// any other value the body is skipped and nothing changes.
pub proof fn lemma_branch_if_positive(
    cond: Seq<Tok>,
    body: InstrV,
    labels: Map<Seq<char>, usize>,
    env: Env,
)
    ensures
        (eval_spec(cond, env) matches Ok(EvalV::Number(n)) && n > 0) ==> exec_spec(
            InstrV::BranchIfNonZero(cond, Box::new(body)),
            labels,
            env,
        ) == exec_spec(body, labels, env),
        eval_spec(cond, env) is Ok && !(eval_spec(cond, env) matches Ok(EvalV::Number(n)) && n
            > 0) ==> exec_spec(InstrV::BranchIfNonZero(cond, Box::new(body)), labels, env)
            == Ok::<(Effect, Env, Option<OutV>), ErrorKind>((Effect::Next, env, None)),
{
}

/// Division and remainder by zero fail with `DivisionByZeroError`.
pub proof fn lemma_division_by_zero(op: Operator, a: i32)
    requires
        op == Operator::Div || op == Operator::Mod,
    ensures
        apply_op(op, a, 0) == Err::<i32, ErrorKind>(ErrorKind::DivisionByZeroError),
{
}

/// A `PRINT` whose expression divides by zero aborts the run with
/// `DivisionByZeroError` at its statement and writes nothing for it.
pub proof fn lemma_print_division_by_zero_aborts(
    p: ProgModel,
    st: MachineV,
    e: Seq<Tok>,
    fuel: nat,
)
    requires
        !finished(p, st),
        fuel > 0,
        p.code[st.pc as int] == InstrV::Print(e),
        eval_spec(e, st.vars) == Err::<EvalV, ErrorKind>(ErrorKind::DivisionByZeroError),
    ensures
        run_spec(p, st, fuel) == (
            Seq::<OutV>::empty(),
            Err::<bool, Error>(
                Error { kind: ErrorKind::DivisionByZeroError, line: p.lines[st.pc as int] },
            ),
        ),
{
}

} // verus!
