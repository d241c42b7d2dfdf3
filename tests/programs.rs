use agm::error::{Error, ErrorKind};
use agm::exec::{evalprogram, step, Machine, Output};
use agm::program::{compile, parse_statement, split_statements, Program, Statement};

fn build(src: &str) -> Result<Program, Error> {
    compile(&split_statements(src))
}

fn show(out: &[Output]) -> String {
    let mut s = String::new();
    for o in out {
        match o {
            Output::Number(n) => s.push_str(&n.to_string()),
            Output::Text(t) => s.push_str(t),
            Output::Newline => s.push('\n'),
        }
    }
    s
}

fn run(src: &str) -> (String, Result<bool, Error>) {
    let program = build(src).unwrap();
    let (out, status) = evalprogram(&program, 10_000);
    (show(&out), status)
}

fn run_ok(src: &str) -> String {
    let (out, status) = run(src);
    assert_eq!(status, Ok(true));
    out
}

#[test]
fn assignment_then_reference() {
    assert_eq!(run_ok("$x := 5; PRINT $x;"), "5");
}

#[test]
fn assignment_uses_current_values() {
    assert_eq!(run_ok("$x := 2; $y := $x * 3 + 1; $x := $y - $x; PRINT $x;"), "5");
}

#[test]
fn goto_skips_print() {
    assert_eq!(run_ok("GOTO skip; PRINT \"no\"; skip; PRINT \"yes\";"), "yes");
}

#[test]
fn label_maps_to_position_after_marker() {
    let program = build("GOTO skip; PRINT 1; skip; PRINT 2").unwrap();
    assert_eq!(program.len(), 4);
    assert_eq!(program.label("skip"), Some(3));
    assert_eq!(program.label("other"), None);
}

#[test]
fn branch_if_zero_runs_body_only_on_zero() {
    assert_eq!(run_ok("BZ 0 PRINT \"z\"; BZ 1 PRINT \"one\"; BZ 0 - 1 PRINT \"neg\";"), "z");
}

#[test]
fn branch_if_positive_runs_body_only_on_positive() {
    assert_eq!(run_ok("BG 3 PRINT \"p\"; BG 0 PRINT \"zero\"; BG 0 - 2 PRINT \"neg\";"), "p");
}

#[test]
fn branch_on_text_skips_body() {
    assert_eq!(run_ok("BZ \"a\" PRINT 1; BG \"a\" PRINT 2; PRINT 3"), "3");
}

#[test]
fn branch_body_may_jump() {
    assert_eq!(run_ok("$n := 3; top; PRINT $n; $n := $n - 1; BG $n GOTO top; PRINT \"!\""), "321!");
}

#[test]
fn nested_branches() {
    assert_eq!(run_ok("BZ 0 BG 1 PRINT 7; BZ 0 BG 0 PRINT 8"), "7");
}

#[test]
fn division_by_zero_aborts_without_output_for_statement() {
    let (out, status) = run("PRINT \"a\"; PRINT 1 / 0; PRINT \"b\"");
    assert_eq!(out, "a");
    assert_eq!(status, Err(Error { kind: ErrorKind::DivisionByZeroError, line: 2 }));
}

#[test]
fn remainder_by_zero_aborts() {
    let (out, status) = run("$z := 0; PRINT 7 % $z; PRINT 1");
    assert_eq!(out, "");
    assert_eq!(status, Err(Error { kind: ErrorKind::DivisionByZeroError, line: 2 }));
}

#[test]
fn duplicate_label_rejected_before_execution() {
    match build("PRINT 1; here; PRINT 2; here") {
        Err(e) => assert_eq!(e, Error { kind: ErrorKind::DuplicateLabelError, line: 4 }),
        Ok(_) => panic!("a label was declared twice"),
    }
}

#[test]
fn undefined_label_fails_at_the_jump() {
    let (out, status) = run("PRINT 1; GOTO nowhere; PRINT 2");
    assert_eq!(out, "1");
    assert_eq!(status, Err(Error { kind: ErrorKind::UndefinedLabelError, line: 2 }));
}

#[test]
fn declaration_starts_at_zero() {
    assert_eq!(run_ok("$x; PRINT $x"), "0");
}

#[test]
fn text_cannot_be_stored() {
    let (_, status) = run("$x := \"hi\"");
    assert_eq!(status, Err(Error { kind: ErrorKind::TypeConflictError, line: 1 }));
}

#[test]
fn end_stops_compilation_and_run() {
    assert_eq!(run_ok("PRINT 1; END; PRINT 2"), "1");
    assert_eq!(run_ok("PRINT 1; END; # not even valid"), "1");
}

#[test]
fn end_in_a_branch_halts() {
    assert_eq!(run_ok("PRINT 1; BZ 0 END; PRINT 2"), "1");
}

#[test]
fn newline_output() {
    assert_eq!(run_ok("PRINT 1; NEWL; PRINT 2"), "1\n2");
}

#[test]
fn fibonacci_loop() {
    let src = "$a := 0; $b := 1; $n := 10;\n\
               loop;\n\
               PRINT $a; NEWL;\n\
               $t := $a + $b; $a := $b; $b := $t;\n\
               $n := $n - 1;\n\
               BG $n GOTO loop;\n";
    assert_eq!(run_ok(src), "0\n1\n1\n2\n3\n5\n8\n13\n21\n34\n");
}

#[test]
fn step_budget_bounds_endless_loops() {
    let (out, status) = run("again; GOTO again");
    assert_eq!(out, "");
    assert_eq!(status, Ok(false));
}

#[test]
fn stepping_by_hand() {
    let program = build("$x := 4; PRINT $x * 2; END; PRINT 0").unwrap();
    let mut m = Machine::start(&program);
    assert!(matches!(step(&program, &mut m), Ok(None)));
    assert_eq!(m.variable("x"), Some(4));
    match step(&program, &mut m) {
        Ok(Some(Output::Number(n))) => assert_eq!(n, 8),
        other => panic!("unexpected {:?}", other),
    }
    assert_eq!(m.pc(), 2);
    assert!(matches!(step(&program, &mut m), Ok(None)));
    assert!(m.is_finished(&program));
    assert!(matches!(step(&program, &mut m), Ok(None)));
}

#[test]
fn assignment_errors() {
    assert_eq!(build("$a := $b := 5").err().unwrap().kind, ErrorKind::MultipleAssignmentError);
    assert_eq!(build("$a $b := 5").err().unwrap().kind, ErrorKind::MultipleAssignmentError);
    assert_eq!(build("x := 5").err().unwrap().kind, ErrorKind::SyntaxError);
    assert_eq!(build(":= 5").err().unwrap().kind, ErrorKind::SyntaxError);
    assert_eq!(build("$a := PRINT 5").err().unwrap().kind, ErrorKind::SyntaxError);
}

#[test]
fn malformed_statements() {
    assert_eq!(build("PRINT 1 PRINT 2").err().unwrap(), Error { kind: ErrorKind::SyntaxError, line: 1 });
    assert_eq!(build("PRINT 1; 5 PRINT 2").err().unwrap(), Error { kind: ErrorKind::SyntaxError, line: 2 });
    assert_eq!(build("GOTO").err().unwrap().kind, ErrorKind::SyntaxError);
    assert_eq!(build("GOTO a b").err().unwrap().kind, ErrorKind::SyntaxError);
    assert_eq!(build("NEWL 1").err().unwrap().kind, ErrorKind::SyntaxError);
    assert_eq!(build("BZ 1").err().unwrap().kind, ErrorKind::SyntaxError);
    assert_eq!(build("3 + 4").err().unwrap().kind, ErrorKind::SyntaxError);
    assert_eq!(build("PRINT (1").err().unwrap().kind, ErrorKind::MismatchedParenthesesError);
}

#[test]
fn parse_kinds_of_statement() {
    assert!(matches!(parse_statement("   "), Ok(Statement::Empty)));
    assert!(matches!(parse_statement("$v"), Ok(Statement::Declare(n)) if n == "v"));
    assert!(matches!(parse_statement("top"), Ok(Statement::LabelDecl(w)) if w == "top"));
    assert!(matches!(parse_statement("PRINT 1"), Ok(Statement::Instr(_))));
}

#[test]
fn split_at_terminators() {
    let parts = split_statements("a;b;;c");
    assert_eq!(parts, vec!["a".to_string(), "b".to_string(), "".to_string(), "c".to_string()]);
    assert_eq!(split_statements(""), vec!["".to_string()]);
    assert_eq!(split_statements("PRINT \"x\";"), vec!["PRINT \"x\"".to_string(), "".to_string()]);
}
