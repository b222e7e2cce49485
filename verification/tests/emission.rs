use lowergen::ast::BinaryOp;
use lowergen::ast::Term;
use lowergen::emit::i64_dec;
use lowergen::emit::quote_str;
use lowergen::emit::u64_dec;
use lowergen::state::State;

fn lit(v: i64) -> Term {
    Term::Int(v)
}

fn text(v: &str) -> Term {
    Term::Str(v.to_string())
}

fn var(n: &str) -> Term {
    Term::Var(n.to_string())
}

fn bin(op: BinaryOp, l: Term, r: Term) -> Term {
    Term::Binary { op, lhs: Box::new(l), rhs: Box::new(r) }
}

fn let_in(name: &str, value: Term, next: Term) -> Term {
    Term::Let { name: name.to_string(), value: Box::new(value), next: Box::new(next) }
}

fn print_of(v: Term) -> Term {
    Term::Print(Box::new(v))
}

fn lower(t: Term) -> State {
    let mut st = State::new();
    st.generate(&t).expect("lowering must succeed");
    st
}

#[test]
fn decimal_rendering() {
    assert_eq!(u64_dec(0), "0");
    assert_eq!(u64_dec(7), "7");
    assert_eq!(u64_dec(12345), "12345");
    assert_eq!(u64_dec(u64::MAX), "18446744073709551615");
    assert_eq!(i64_dec(0), "0");
    assert_eq!(i64_dec(-7), "-7");
    assert_eq!(i64_dec(i64::MIN), "-9223372036854775808");
    assert_eq!(i64_dec(i64::MAX), "9223372036854775807");
}

#[test]
fn string_quoting() {
    assert_eq!(quote_str(&"hi".to_string()), "\"hi\"");
    assert_eq!(quote_str(&"a\"b".to_string()), "\"a\\\"b\"");
    assert_eq!(quote_str(&"a\\b".to_string()), "\"a\\\\b\"");
    assert_eq!(quote_str(&"a\nb".to_string()), "\"a\\nb\"");
    assert_eq!(quote_str(&"".to_string()), "\"\"");
}

#[test]
fn emit_folded_print() {
    // print(1 + 2): one constant, one tag, one print call
    let st = lower(print_of(bin(BinaryOp::Add, lit(1), lit(2))));
    let art = st.emit("PRE");
    let expected = "PRE\n\
        int v_2 = 3;\n\
        Kind t_2 = 254;\n\
        int main(void) {\n\
        p((void*)&v_2, t_2);\n\
        return 0;\n\
        }\n";
    assert_eq!(art, expected);
}

#[test]
fn emit_string_constant_with_escapes() {
    let st = lower(let_in("x", text("a\"b\\c"), print_of(var("x"))));
    let art = st.emit("PRE");
    let expected = "PRE\n\
        char* v_2 = \"a\\\"b\\\\c\";\n\
        Kind t_2 = 202;\n\
        int main(void) {\n\
        p((void*)&v_2, t_2);\n\
        return 0;\n\
        }\n";
    assert_eq!(art, expected);
}

#[test]
fn emit_negative_constant() {
    let st = lower(print_of(bin(BinaryOp::Sub, lit(0), lit(5))));
    let art = st.emit("PRE");
    assert!(art.contains("int v_2 = -5;\n"));
    assert!(art.contains("Kind t_2 = 254;\n"));
}

#[test]
fn emit_deferred_concat() {
    // let x = 1; print(x + 2)
    let st = lower(let_in("x", lit(1), print_of(bin(BinaryOp::Add, var("x"), lit(2)))));
    let art = st.emit("PRE");
    let expected = "PRE\n\
        int v_2 = 1;\n\
        int v_5 = 2;\n\
        void* v_4 = 0;\n\
        Kind t_2 = 254;\n\
        Kind t_5 = 254;\n\
        Kind t_4 = 190;\n\
        int main(void) {\n\
        v_4 = calloc(1024, sizeof(char));\n\
        S(&v_4,&t_4,&v_2,&v_5,t_2,i);\n\
        p((void*)&v_4, t_4);\n\
        return 0;\n\
        }\n";
    assert_eq!(art, expected);
}

#[test]
fn emit_function_body() {
    // let f = fn() => { let a = 1; print(a + 1) }
    let body = let_in("a", lit(1), print_of(bin(BinaryOp::Add, var("a"), lit(1))));
    let st = lower(let_in(
        "f",
        Term::Function { parameters: vec![], body: Box::new(body) },
        lit(0),
    ));
    let fslot = st.functions[0];
    let art = st.emit("PRE");
    assert!(art.contains(&format!("void f_{}(void) {{\n", fslot)));
    assert!(art.contains("MathEvaluateA(") == false);
    assert!(art.contains("S(&v_"));
    assert!(art.contains("}\nint main(void) {\n"));
}

#[test]
fn emit_tuple_instructions() {
    // let t = (1, 2); print(first t)
    let st = lower(let_in(
        "t",
        Term::Tuple { first: Box::new(lit(1)), second: Box::new(lit(2)) },
        print_of(Term::First(Box::new(var("t")))),
    ));
    let art = st.emit("PRE");
    assert!(art.contains(".a = &v_"));
    assert!(art.contains(".ta = t_"));
    assert!(art.contains(".b = &v_"));
    assert!(art.contains(".tb = t_"));
    assert!(art.contains("TupleIdxA(&v_"));
    assert!(art.contains(", 0);\n"));
}

#[test]
fn emit_deferred_arithmetic_names_operator() {
    let st = lower(let_in("x", lit(4), print_of(bin(BinaryOp::Mul, var("x"), lit(3)))));
    let art = st.emit("PRE");
    assert!(art.contains("MathEvaluateA((int*)&v_"));
    assert!(art.contains(", Mul);\n"));

    let st = lower(let_in("x", lit(4), print_of(bin(BinaryOp::Lte, var("x"), lit(3)))));
    let art = st.emit("PRE");
    assert!(art.contains("BinaryEvaluateA((char*)&v_"));
    assert!(art.contains(", Lte);\n"));
}
