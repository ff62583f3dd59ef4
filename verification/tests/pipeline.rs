use nenia::interpreter::{ErrorKind, Fault, Interrupt, InterpreterVisitor};
use nenia::num::{NumAnswer, NumOp, NumQuery};
use nenia::RunError;

/// Serves one numeric query with the host's float unit.
fn answer(q: NumQuery) -> NumAnswer {
    match q {
        NumQuery::Arith(op, a, b) => {
            let x = f32::from_bits(a);
            let y = f32::from_bits(b);
            let r = match op {
                NumOp::Add => x + y,
                NumOp::Sub => x - y,
                NumOp::Mul => x * y,
                NumOp::Div => x / y,
            };
            NumAnswer::Bits(r.to_bits())
        }
        NumQuery::FromDecimal(s) => NumAnswer::Bits(s.parse::<f32>().unwrap_or(0.0).to_bits()),
        NumQuery::ToDecimal(b) => NumAnswer::Text(format!("{}", f32::from_bits(b))),
    }
}

/// Runs a program, serving numeric queries until it completes, and returns
/// what it printed.
fn run_program(src: &str) -> Result<Vec<String>, RunError> {
    let mut answers: Vec<NumAnswer> = Vec::new();
    loop {
        let mut iv = InterpreterVisitor::new();
        iv.set_answers(answers.clone());
        match nenia::run(src.to_string(), &mut iv) {
            Ok(()) => return Ok(iv.take_output()),
            Err(RunError::Runtime(Interrupt::Need(q))) => answers.push(answer(q)),
            Err(e) => return Err(e),
        }
    }
}

#[test]
fn arithmetic_precedence() {
    assert_eq!(run_program("print 1 + 2 * 3;").unwrap(), vec!["7"]);
    assert_eq!(run_program("print (1 + 2) * 3;").unwrap(), vec!["9"]);
}

#[test]
fn string_concat_both_sides() {
    assert_eq!(run_program("print \"a\" + 1;").unwrap(), vec!["a1"]);
    assert_eq!(run_program("print 1 + \"b\";").unwrap(), vec!["1b"]);
}

#[test]
fn scope_shadowing() {
    let src = "var a = 1;\n{ var a = 2; print a; }\nprint a;";
    assert_eq!(run_program(src).unwrap(), vec!["2", "1"]);
}

#[test]
fn for_desugaring() {
    let src = "var s = 0;\nfor (var i = 0; i < 3; i = i + 1) s = s + i;\nprint s;";
    assert_eq!(run_program(src).unwrap(), vec!["3"]);
}

#[test]
fn short_circuit() {
    let src = "var x = 1; false and (x = 2); print x;";
    assert_eq!(run_program(src).unwrap(), vec!["1"]);
    let src2 = "var x = 1; true or (x = 2); print x;";
    assert_eq!(run_program(src2).unwrap(), vec!["1"]);
}

#[test]
fn divide_by_zero() {
    match run_program("print 1 / 0;") {
        Err(RunError::Runtime(Interrupt::Fault(Fault::Interp(e)))) => {
            assert_eq!(e.kind, ErrorKind::DivideByZero(1.0f32.to_bits()));
        }
        other => panic!("{:?}", other),
    }
}

#[test]
fn divide_by_zero_prints_nothing() {
    let mut answers: Vec<NumAnswer> = Vec::new();
    loop {
        let mut iv = InterpreterVisitor::new();
        iv.set_answers(answers.clone());
        match nenia::run("print 1 / 0;".to_string(), &mut iv) {
            Ok(()) => panic!("division by zero went unnoticed"),
            Err(RunError::Runtime(Interrupt::Need(q))) => answers.push(answer(q)),
            Err(_) => {
                assert_eq!(iv.take_output().len(), 0);
                return;
            }
        }
    }
}

#[test]
fn numeral_round_trip() {
    assert_eq!(run_program("print 3.14;").unwrap(), vec!["3.14"]);
}

#[test]
fn comparisons_and_equality() {
    assert_eq!(run_program("print 1 < 2;").unwrap(), vec!["true"]);
    assert_eq!(run_program("print 2 <= 1;").unwrap(), vec!["false"]);
    assert_eq!(run_program("print 3 > 2;").unwrap(), vec!["true"]);
    assert_eq!(run_program("print 1 == 1;").unwrap(), vec!["true"]);
    assert_eq!(run_program("print 1 != 1;").unwrap(), vec!["false"]);
    assert_eq!(run_program("print \"a\" == \"a\";").unwrap(), vec!["true"]);
    assert_eq!(run_program("print nil == nil;").unwrap(), vec!["true"]);
    assert_eq!(run_program("print 1 == \"1\";").unwrap(), vec!["false"]);
    assert_eq!(run_program("print 0 == -0;").unwrap(), vec!["true"]);
}

#[test]
fn unary_and_truthiness() {
    assert_eq!(run_program("print -3 + 4;").unwrap(), vec!["1"]);
    assert_eq!(run_program("print !false;").unwrap(), vec!["true"]);
    assert_eq!(run_program("print !nil;").unwrap(), vec!["true"]);
    assert_eq!(run_program("print !0;").unwrap(), vec!["false"]);
    assert_eq!(run_program("print !\"\";").unwrap(), vec!["false"]);
}

#[test]
fn if_and_while() {
    assert_eq!(
        run_program("if (1 < 2) print \"yes\"; else print \"no\";").unwrap(),
        vec!["yes"]
    );
    assert_eq!(
        run_program("if (2 < 1) print \"yes\"; else print \"no\";").unwrap(),
        vec!["no"]
    );
    let src = "var i = 0; while (i < 2) { print i; i = i + 1; }";
    assert_eq!(run_program(src).unwrap(), vec!["0", "1"]);
}

#[test]
fn assignment_yields_value() {
    let src = "var a = 1; var b = 2; a = b = 3; print a; print b;";
    assert_eq!(run_program(src).unwrap(), vec!["3", "3"]);
}

#[test]
fn left_to_right_effects() {
    let src = "var x = 1; var y = (x = 2) + x; print y;";
    assert_eq!(run_program(src).unwrap(), vec!["4"]);
}

#[test]
fn undefined_variable_fault() {
    match run_program("print ghostly;") {
        Err(RunError::Runtime(Interrupt::Fault(Fault::Env(_)))) => {}
        other => panic!("{:?}", other),
    }
}

#[test]
fn uninitialized_print_fault() {
    match run_program("var a; print a;") {
        Err(RunError::Runtime(Interrupt::Fault(Fault::Interp(e)))) => {
            assert_eq!(e.kind, ErrorKind::UninitializedVariable);
        }
        other => panic!("{:?}", other),
    }
}

#[test]
fn cast_fault_on_bad_operands() {
    match run_program("print true + 1;") {
        Err(RunError::Runtime(Interrupt::Fault(Fault::Interp(e)))) => {
            assert!(matches!(e.kind, ErrorKind::FailedCast(_, _)));
        }
        other => panic!("{:?}", other),
    }
}

#[test]
fn budget_exhausts_on_endless_loop() {
    let mut iv = InterpreterVisitor::new();
    iv.set_budget(100);
    match nenia::run("while (true) {}".to_string(), &mut iv) {
        Err(RunError::Runtime(Interrupt::Exhausted)) => {}
        other => panic!("{:?}", other),
    }
}

#[test]
fn comments_and_blank_lines() {
    let src = "// a comment\nprint 1; // trailing\n\nprint 2;";
    assert_eq!(run_program(src).unwrap(), vec!["1", "2"]);
}

#[test]
fn string_with_newline_inside() {
    assert_eq!(run_program("print \"a\nb\";").unwrap(), vec!["a\nb"]);
}

#[test]
fn nil_concat_to_string() {
    assert_eq!(run_program("print \"x\" + nil;").unwrap(), vec!["xnull"]);
    assert_eq!(run_program("print \"is \" + true;").unwrap(), vec!["is true"]);
}
