use r_python::ast::{Expression, Statement};
use r_python::tac::{TacGenerator, TacInstruction, TacOperand};

#[test]
fn generates_basic_assignment() {
    let statements = vec![Statement::Assignment(
        "x".to_string(),
        Box::new(Expression::CInt(42)),
    )];
    let mut generator = TacGenerator::new();
    let program = generator.generate(&statements);
    assert_eq!(program.functions().len(), 1);
    let main = &program.functions()[0];
    assert_eq!(main.name(), "__main__");
    assert!(matches!(
        main.instructions().first(),
        Some(TacInstruction::Assign { target, value }) if target == "x" && *value == TacOperand::ConstInt(42)
    ));
}

#[test]
fn generates_binary_expression() {
    let statements = vec![Statement::Assignment(
        "result".to_string(),
        Box::new(Expression::Add(
            Box::new(Expression::CInt(1)),
            Box::new(Expression::CInt(2)),
        )),
    )];
    let mut generator = TacGenerator::new();
    let program = generator.generate(&statements);
    let main = &program.functions()[0];
    assert_eq!(main.instructions().len(), 3);
    assert!(matches!(main.instructions()[0], TacInstruction::Binary { .. }));
    assert!(matches!(main.instructions()[1], TacInstruction::Assign { .. }));
    assert!(matches!(main.instructions()[2], TacInstruction::Return(_)));
}

fn written_targets(program: &r_python::tac::TacProgram, out: &mut Vec<String>) {
    for f in program.functions() {
        for i in f.instructions() {
            match i {
                TacInstruction::Binary { target, .. }
                | TacInstruction::Unary { target, .. }
                | TacInstruction::Construct { target, .. } => out.push(target.clone()),
                TacInstruction::Call { target: Some(target), .. } => out.push(target.clone()),
                _ => {}
            }
        }
    }
}

#[test]
fn temporaries_are_written_once_across_programs() {
    let add = |a: i32, b: i32| {
        Box::new(Expression::Add(Box::new(Expression::CInt(a)), Box::new(Expression::CInt(b))))
    };
    let first = vec![
        Statement::Assignment("x".to_string(), Box::new(Expression::Mul(add(1, 2), add(3, 4)))),
        Statement::While(
            Box::new(Expression::LT(Box::new(Expression::Var("x".to_string())), Box::new(Expression::CInt(9)))),
            Box::new(Statement::Assignment("x".to_string(), add(5, 6))),
        ),
    ];
    let second = vec![
        Statement::Assignment("y".to_string(), add(7, 8)),
        Statement::While(Box::new(Expression::CTrue), Box::new(Statement::Block(vec![]))),
    ];
    let mut generator = TacGenerator::new();
    let p1 = generator.generate(&first);
    let p2 = generator.generate(&second);
    let mut targets = Vec::new();
    written_targets(&p1, &mut targets);
    written_targets(&p2, &mut targets);
    assert_eq!(targets.len(), 6);
    for i in 0..targets.len() {
        for j in (i + 1)..targets.len() {
            assert_ne!(targets[i], targets[j]);
        }
    }
    let mut labels = Vec::new();
    for p in [&p1, &p2] {
        for f in p.functions() {
            for i in f.instructions() {
                if let TacInstruction::Label(name) = i {
                    labels.push(name.clone());
                }
            }
        }
    }
    assert_eq!(labels.len(), 6);
    for i in 0..labels.len() {
        for j in (i + 1)..labels.len() {
            assert_ne!(labels[i], labels[j]);
        }
    }
}
