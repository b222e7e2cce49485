use lowergen::ast::BinaryOp;
use lowergen::ast::Term;
use lowergen::state::ConstEntry;
use lowergen::state::Instr;
use lowergen::state::LowerError;
use lowergen::state::State;

fn lit(v: i64) -> Term {
    Term::Int(v)
}

fn text(v: &str) -> Term {
    Term::Str(v.to_string())
}

fn boolean(v: bool) -> Term {
    Term::Bool(v)
}

fn var(n: &str) -> Term {
    Term::Var(n.to_string())
}

fn bin(op: BinaryOp, l: Term, r: Term) -> Term {
    Term::Binary { op, lhs: Box::new(l), rhs: Box::new(r) }
}

fn let_in(name: &str, value: Term, next: Term) -> Term {
    Term::Let { name: name.to_string(), value: Box::new(value), next: Box::new(next) }
}

fn print_of(v: Term) -> Term {
    Term::Print(Box::new(v))
}

fn tuple(a: Term, b: Term) -> Term {
    Term::Tuple { first: Box::new(a), second: Box::new(b) }
}

fn run(t: Term) -> (State, Result<(), LowerError>) {
    let mut st = State::new();
    let r = st.generate(&t);
    (st, r)
}

fn const_of(st: &State, id: u64) -> Option<&ConstEntry> {
    st.constants.iter().find(|p| p.0 == id).map(|p| &p.1)
}

fn tag_of(st: &State, id: u64) -> Option<u8> {
    st.types.iter().find(|p| p.0 == id).map(|p| p.1)
}

fn main_queue(st: &State) -> Vec<Instr> {
    st.evaluation_queue
        .iter()
        .find(|p| p.0 == 0)
        .map(|p| p.1.clone())
        .unwrap_or_default()
}

fn assert_int_const(st: &State, id: u64, expected: i64) {
    match const_of(st, id) {
        Some(ConstEntry::Int(v)) => assert_eq!(*v, expected),
        other => panic!("slot {} is not the int {}: {:?}", id, expected, other.is_some()),
    }
    assert_eq!(tag_of(st, id), Some(0xfe));
}

fn assert_bool_const(st: &State, id: u64, expected: bool) {
    match const_of(st, id) {
        Some(ConstEntry::Bool(v)) => assert_eq!(*v, expected),
        _ => panic!("slot {} is not the boolean {}", id, expected),
    }
    assert_eq!(tag_of(st, id), Some(0xba));
}

#[test]
fn fold_add_ints() {
    let (st, r) = run(print_of(bin(BinaryOp::Add, lit(1), lit(2))));
    assert!(r.is_ok());
    assert_eq!(st.constants.len(), 1);
    assert_eq!(st.print_queue.len(), 1);
    assert_int_const(&st, st.print_queue[0], 3);
    assert!(st.evaluation_queue.is_empty());
}

#[test]
fn fold_add_strings() {
    let (st, r) = run(print_of(bin(BinaryOp::Add, text("a"), text("b"))));
    assert!(r.is_ok());
    assert_eq!(st.print_queue.len(), 1);
    match const_of(&st, st.print_queue[0]) {
        Some(ConstEntry::Str(s)) => assert_eq!(s, "ab"),
        _ => panic!("concatenation did not fold to a string"),
    }
    assert_eq!(tag_of(&st, st.print_queue[0]), Some(0xca));
}

#[test]
fn fold_arithmetic() {
    let cases = [
        (BinaryOp::Sub, 7, 3, 4),
        (BinaryOp::Mul, 6, 7, 42),
        (BinaryOp::Div, 7, 2, 3),
        (BinaryOp::Rem, 7, 2, 1),
        (BinaryOp::Div, -7, 2, -3),
        (BinaryOp::Rem, -7, 2, -1),
    ];
    for (op, a, b, expected) in cases {
        let (st, r) = run(print_of(bin(op, lit(a), lit(b))));
        assert!(r.is_ok());
        assert_int_const(&st, st.print_queue[0], expected);
    }
}

#[test]
fn fold_comparisons() {
    let cases = [
        (BinaryOp::Lt, 1, 2, true),
        (BinaryOp::Gt, 1, 2, false),
        (BinaryOp::Lte, 2, 2, true),
        (BinaryOp::Gte, 1, 2, false),
        (BinaryOp::Eq, 4, 4, true),
        (BinaryOp::Neq, 4, 4, false),
    ];
    for (op, a, b, expected) in cases {
        let (st, r) = run(print_of(bin(op, lit(a), lit(b))));
        assert!(r.is_ok());
        assert_bool_const(&st, st.print_queue[0], expected);
    }
}

#[test]
fn fold_string_and_bool_equality() {
    let (st, r) = run(print_of(bin(BinaryOp::Eq, text("hi"), text("hi"))));
    assert!(r.is_ok());
    assert_bool_const(&st, st.print_queue[0], true);

    let (st, r) = run(print_of(bin(BinaryOp::Neq, text("hi"), text("ho"))));
    assert!(r.is_ok());
    assert_bool_const(&st, st.print_queue[0], true);

    let (st, r) = run(print_of(bin(BinaryOp::Eq, boolean(true), boolean(false))));
    assert!(r.is_ok());
    assert_bool_const(&st, st.print_queue[0], false);
}

#[test]
fn division_by_zero_aborts() {
    let (_, r) = run(print_of(bin(BinaryOp::Div, lit(1), lit(0))));
    assert!(matches!(r, Err(LowerError::DivisionByZero(_))));
    let (_, r) = run(print_of(bin(BinaryOp::Rem, lit(1), lit(0))));
    assert!(matches!(r, Err(LowerError::DivisionByZero(_))));
}

#[test]
fn slots_strictly_increasing_and_distinct() {
    let program = let_in(
        "x",
        lit(1),
        let_in(
            "t",
            tuple(lit(2), text("s")),
            print_of(bin(BinaryOp::Add, var("x"), lit(3))),
        ),
    );
    let (st, r) = run(program);
    assert!(r.is_ok());
    for (i, a) in st.constants.iter().enumerate() {
        assert!(1 <= a.0 && a.0 <= st.it);
        for b in st.constants.iter().skip(i + 1) {
            assert_ne!(a.0, b.0);
        }
    }
    for (i, a) in st.types.iter().enumerate() {
        assert!(1 <= a.0 && a.0 <= st.it);
        for b in st.types.iter().skip(i + 1) {
            assert_ne!(a.0, b.0);
        }
    }
}

#[test]
fn shadowing_prefers_current_scope() {
    // let x = 1; let f = fn() => { let x = 2; print(x) }; print(x)
    let body = let_in("x", lit(2), print_of(var("x")));
    let program = let_in(
        "x",
        lit(1),
        let_in(
            "f",
            Term::Function { parameters: vec![], body: Box::new(body) },
            print_of(var("x")),
        ),
    );
    let (st, r) = run(program);
    assert!(r.is_ok());
    assert_eq!(st.print_queue.len(), 2);
    // the print inside the function sees the local binding
    assert_int_const(&st, st.print_queue[0], 2);
    // the print outside still sees the global one
    assert_int_const(&st, st.print_queue[1], 1);
}

#[test]
fn global_fallback_resolves() {
    // let y = 5; let g = fn() => print(y); ...
    let body = print_of(var("y"));
    let program = let_in(
        "y",
        lit(5),
        let_in(
            "g",
            Term::Function { parameters: vec![], body: Box::new(body) },
            lit(0),
        ),
    );
    let (st, r) = run(program);
    assert!(r.is_ok());
    assert_eq!(st.print_queue.len(), 1);
    assert_int_const(&st, st.print_queue[0], 5);
}

#[test]
fn unbound_variable_fails() {
    let (_, r) = run(print_of(var("nope")));
    match r {
        Err(LowerError::UnboundVariable(n)) => assert_eq!(n, "nope"),
        _ => panic!("an unbound name must abort with its name"),
    }
}

#[test]
fn print_queue_follows_source_order() {
    // print(2); let x = 1; print(x)
    let program = let_in(
        "_",
        print_of(lit(2)),
        let_in("x", lit(1), print_of(var("x"))),
    );
    let (st, r) = run(program);
    assert!(r.is_ok());
    assert_eq!(st.print_queue.len(), 2);
    assert_int_const(&st, st.print_queue[0], 2);
    assert_int_const(&st, st.print_queue[1], 1);
}

#[test]
fn every_reference_has_constant_and_tag() {
    let body = let_in("a", lit(1), print_of(bin(BinaryOp::Add, var("a"), lit(9))));
    let program = let_in(
        "x",
        lit(1),
        let_in(
            "t",
            tuple(lit(2), lit(3)),
            let_in(
                "f",
                Term::Function { parameters: vec!["p".to_string()], body: Box::new(body) },
                print_of(Term::First(Box::new(var("t")))),
            ),
        ),
    );
    let (st, r) = run(program);
    assert!(r.is_ok());
    let defined = |id: u64| const_of(&st, id).is_some() && tag_of(&st, id).is_some();
    for id in &st.print_queue {
        assert!(defined(*id));
    }
    for id in &st.functions {
        assert!(defined(*id));
    }
    for (_, id) in &st.named_functions {
        assert!(defined(*id));
    }
    for (_, q) in &st.evaluation_queue {
        for i in q {
            match *i {
                Instr::Concat { dst, lhs, rhs }
                | Instr::Arith { dst, lhs, rhs, .. }
                | Instr::Compare { dst, lhs, rhs, .. } => {
                    assert!(defined(dst) && defined(lhs.slot) && defined(rhs.slot));
                }
                Instr::TupleSet { dst, src, .. } | Instr::TupleGet { dst, src, .. } => {
                    assert!(defined(dst) && defined(src));
                }
            }
        }
    }
}

#[test]
fn first_of_literal_tuple_folds() {
    let (st, r) = run(print_of(Term::First(Box::new(tuple(lit(1), text("x"))))));
    assert!(r.is_ok());
    assert_int_const(&st, st.print_queue[0], 1);
    // no tuple is built and no deferred instruction is emitted
    assert!(st.evaluation_queue.is_empty());

    let (st, r) = run(print_of(Term::Second(Box::new(tuple(lit(1), text("x"))))));
    assert!(r.is_ok());
    match const_of(&st, st.print_queue[0]) {
        Some(ConstEntry::Str(s)) => assert_eq!(s, "x"),
        _ => panic!("second of a literal tuple must fold to its component"),
    }
    assert!(st.evaluation_queue.is_empty());
}

#[test]
fn field_of_tuple_variable_defers_once() {
    let program = let_in("t", tuple(lit(1), lit(2)), print_of(Term::First(Box::new(var("t")))));
    let (st, r) = run(program);
    assert!(r.is_ok());
    let q = main_queue(&st);
    let gets: Vec<&Instr> = q.iter().filter(|i| matches!(i, Instr::TupleGet { .. })).collect();
    assert_eq!(gets.len(), 1);
    match gets[0] {
        Instr::TupleGet { dst, index, .. } => {
            assert_eq!(*index, 0);
            assert_eq!(st.print_queue, vec![*dst]);
        }
        _ => unreachable!(),
    }

    let program = let_in("t", tuple(lit(1), lit(2)), print_of(Term::Second(Box::new(var("t")))));
    let (st, r) = run(program);
    assert!(r.is_ok());
    let q = main_queue(&st);
    let gets: Vec<&Instr> = q.iter().filter(|i| matches!(i, Instr::TupleGet { .. })).collect();
    assert_eq!(gets.len(), 1);
    assert!(matches!(gets[0], Instr::TupleGet { index: 1, .. }));
}

#[test]
fn string_binding_scenario() {
    // let x = "hi"; print(x)
    let (st, r) = run(let_in("x", text("hi"), print_of(var("x"))));
    assert!(r.is_ok());
    assert_eq!(st.constants.len(), 1);
    let (id, entry) = &st.constants[0];
    match entry {
        ConstEntry::Str(s) => assert_eq!(s, "hi"),
        _ => panic!("the bound literal must be recorded as a string constant"),
    }
    assert_eq!(tag_of(&st, *id), Some(0xca));
    assert_eq!(st.print_queue, vec![*id]);
}

#[test]
fn variable_plus_literal_defers() {
    // let x = 1; print(x + 2)
    let program = let_in("x", lit(1), print_of(bin(BinaryOp::Add, var("x"), lit(2))));
    let (st, r) = run(program);
    assert!(r.is_ok());
    let q = main_queue(&st);
    assert!(!q.is_empty());
    match q[0] {
        Instr::Concat { dst, .. } => {
            // the result slot holds a placeholder, not a folded constant
            assert!(matches!(const_of(&st, dst), Some(ConstEntry::Uninit)));
            assert_eq!(tag_of(&st, dst), Some(0xbe));
            assert_eq!(st.print_queue, vec![dst]);
        }
        _ => panic!("a variable operand must produce a deferred concatenation"),
    }
}

#[test]
fn bool_logic_rejects_non_literals() {
    // a bound variable operand still fails, and no instruction is produced
    let program = let_in(
        "x",
        boolean(true),
        print_of(bin(BinaryOp::And, var("x"), boolean(true))),
    );
    let (st, r) = run(program);
    assert!(matches!(r, Err(LowerError::TypeMismatch { .. })));
    assert!(st.evaluation_queue.is_empty());

    let (st, r) = run(print_of(bin(BinaryOp::Or, lit(1), boolean(true))));
    assert!(matches!(r, Err(LowerError::TypeMismatch { .. })));
    assert!(st.evaluation_queue.is_empty());
}

#[test]
fn bool_logic_folds_literals() {
    let (st, r) = run(print_of(bin(BinaryOp::And, boolean(true), boolean(false))));
    assert!(r.is_ok());
    assert_bool_const(&st, st.print_queue[0], false);

    let (st, r) = run(print_of(bin(BinaryOp::Or, boolean(true), boolean(false))));
    assert!(r.is_ok());
    assert_bool_const(&st, st.print_queue[0], true);
}

#[test]
fn mixed_literals_fail() {
    let (_, r) = run(print_of(bin(BinaryOp::Add, lit(1), text("x"))));
    assert!(matches!(r, Err(LowerError::TypeMismatch { .. })));
    let (_, r) = run(print_of(bin(BinaryOp::Sub, text("a"), text("b"))));
    assert!(matches!(r, Err(LowerError::TypeMismatch { .. })));
    let (_, r) = run(print_of(bin(BinaryOp::Lt, boolean(true), lit(1))));
    assert!(matches!(r, Err(LowerError::TypeMismatch { .. })));
}

#[test]
fn conditional_takes_only_selected_branch() {
    let program = Term::If {
        condition: Box::new(boolean(true)),
        then: Box::new(print_of(lit(1))),
        otherwise: Box::new(print_of(lit(99))),
    };
    let (st, r) = run(program);
    assert!(r.is_ok());
    assert_eq!(st.print_queue.len(), 1);
    assert_int_const(&st, st.print_queue[0], 1);
    assert!(!st.constants.iter().any(|p| matches!(p.1, ConstEntry::Int(99))));

    let program = Term::If {
        condition: Box::new(bin(BinaryOp::Lt, lit(1), lit(2))),
        then: Box::new(print_of(text("yes"))),
        otherwise: Box::new(print_of(text("no"))),
    };
    let (st, r) = run(program);
    assert!(r.is_ok());
    match const_of(&st, st.print_queue[0]) {
        Some(ConstEntry::Str(s)) => assert_eq!(s, "yes"),
        _ => panic!("a folded comparison must select the then branch"),
    }
}

#[test]
fn conditional_on_runtime_value_is_rejected() {
    // let x = 1; if (x < 2) { ... } else { ... }
    let program = let_in(
        "x",
        lit(1),
        Term::If {
            condition: Box::new(bin(BinaryOp::Lt, var("x"), lit(2))),
            then: Box::new(lit(1)),
            otherwise: Box::new(lit(2)),
        },
    );
    let (_, r) = run(program);
    assert!(matches!(r, Err(LowerError::UnsupportedConstruct(_))));

    let program = Term::If {
        condition: Box::new(lit(1)),
        then: Box::new(lit(1)),
        otherwise: Box::new(lit(2)),
    };
    let (_, r) = run(program);
    assert!(matches!(r, Err(LowerError::TypeMismatch { .. })));
}

#[test]
fn print_as_operand_registers_and_folds_through() {
    // print(print(2) + 3)
    let (st, r) = run(print_of(bin(BinaryOp::Add, print_of(lit(2)), lit(3))));
    assert!(r.is_ok());
    assert_eq!(st.print_queue.len(), 2);
    assert_int_const(&st, st.print_queue[0], 2);
    assert_int_const(&st, st.print_queue[1], 5);
}

#[test]
fn reserved_constructs_are_rejected() {
    let call = Term::Call { callee: Box::new(var("f")), arguments: vec![lit(1)] };
    let (_, r) = run(call);
    assert!(matches!(r, Err(LowerError::UnsupportedConstruct(_))));
    let (_, r) = run(Term::Error("bad".to_string()));
    assert!(matches!(r, Err(LowerError::UnsupportedConstruct(_))));
}

#[test]
fn functions_are_registered() {
    // let f = fn(p) => { let a = 1; print(a + 1) }
    let body = let_in("a", lit(1), print_of(bin(BinaryOp::Add, var("a"), lit(1))));
    let program = let_in(
        "f",
        Term::Function { parameters: vec!["p".to_string()], body: Box::new(body) },
        lit(0),
    );
    let (st, r) = run(program);
    assert!(r.is_ok());
    assert_eq!(st.functions.len(), 1);
    assert_eq!(st.named_functions.len(), 1);
    assert_eq!(st.named_functions[0].0, "f");
    assert_eq!(st.named_functions[0].1, st.functions[0]);
    // the deferred instruction of the body sits in the function's own scope
    let fslot = st.functions[0];
    let fqueue = st.evaluation_queue.iter().find(|p| p.0 == fslot);
    assert!(fqueue.is_some_and(|p| !p.1.is_empty()));
    assert!(main_queue(&st).is_empty());
}

#[test]
fn deferred_comparison_with_string() {
    // let x = "hi"; print(x == "ho") folds both sides? x is a variable: deferred
    let program = let_in(
        "x",
        text("hi"),
        print_of(bin(BinaryOp::Eq, var("x"), text("ho"))),
    );
    let (st, r) = run(program);
    assert!(r.is_ok());
    let q = main_queue(&st);
    assert_eq!(q.len(), 1);
    match q[0] {
        Instr::Compare { op, dst, .. } => {
            assert_eq!(op, BinaryOp::Eq);
            assert!(matches!(const_of(&st, dst), Some(ConstEntry::UninitBool)));
            assert_eq!(tag_of(&st, dst), Some(0xba));
        }
        _ => panic!("a variable operand of a comparison must defer"),
    }
}

#[test]
fn deferred_arithmetic_keeps_operator() {
    let program = let_in("x", lit(4), print_of(bin(BinaryOp::Sub, lit(9), var("x"))));
    let (st, r) = run(program);
    assert!(r.is_ok());
    let q = main_queue(&st);
    assert_eq!(q.len(), 1);
    match q[0] {
        Instr::Arith { op, dst, .. } => {
            assert_eq!(op, BinaryOp::Sub);
            assert!(matches!(const_of(&st, dst), Some(ConstEntry::UninitInt)));
            assert_eq!(tag_of(&st, dst), Some(0xfe));
        }
        _ => panic!("a variable operand of an arithmetic operator must defer"),
    }
}

#[test]
fn wrapping_fold_at_the_edge() {
    let (st, r) = run(print_of(bin(BinaryOp::Add, lit(i64::MAX), lit(1))));
    assert!(r.is_ok());
    assert_int_const(&st, st.print_queue[0], i64::MIN);
}
