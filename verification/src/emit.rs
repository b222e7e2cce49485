//! The emission stage: serialize a lowered [`State`] into the text of one C
//! source artifact.
//!
//! The artifact is the runtime-support preamble handed in by the caller,
//! then one declaration per recorded constant, one per type tag, one
//! function body per entry in the function list (each replaying its scope's
//! evaluation queue), and a `main` body that replays the runtime queue, the
//! global scope's queue, and one print call per print-queue entry.
//! [`emit_text`] pins the exact text; writing it to a file is the caller's
//! business.

use crate::ast::BinaryOp;
use crate::state::find_slot;
use crate::state::ConstEntry;
use crate::state::Instr;
use crate::state::ArgKind;
use crate::state::BinArg;
use crate::state::State;
use crate::state::SCOPE_MAIN;
use vstd::prelude::*;
use vstd::string::StrSliceExecFns;
use vstd::string::StringExecFns;

verus! {

/// The decimal digit character for `d` (0 to 9).
pub open spec fn dec_digit(d: nat) -> char {
    if d == 0 {
        '0'
    } else if d == 1 {
        '1'
    } else if d == 2 {
        '2'
    } else if d == 3 {
        '3'
    } else if d == 4 {
        '4'
    } else if d == 5 {
        '5'
    } else if d == 6 {
        '6'
    } else if d == 7 {
        '7'
    } else if d == 8 {
        '8'
    } else {
        '9'
    }
}

/// The decimal rendering of a natural number, most significant digit first.
pub open spec fn dec_nat(n: nat) -> Seq<char>
    decreases n,
{
    if n < 10 {
        seq![dec_digit(n)]
    } else {
        dec_nat(n / 10).push(dec_digit(n % 10))
    }
}

/// The decimal rendering of a signed 64-bit integer.
pub open spec fn dec_i64(x: i64) -> Seq<char> {
    if x < 0 {
        seq!['-'] + dec_nat((-(x as int)) as nat)
    } else {
        dec_nat(x as nat)
    }
}

/// How one character appears inside a quoted string literal.
pub open spec fn esc_char(c: char) -> Seq<char> {
    if c == '"' {
        "\\\""@
    } else if c == '\\' {
        "\\\\"@
    } else if c == '\n' {
        "\\n"@
    } else if c == '\r' {
        "\\r"@
    } else if c == '\t' {
        "\\t"@
    } else {
        seq![c]
    }
}

/// The body of a quoted string literal, escaped character by character.
pub open spec fn escaped(s: Seq<char>) -> Seq<char>
    decreases s.len(),
{
    if s.len() == 0 {
        Seq::empty()
    } else {
        escaped(s.drop_last()) + esc_char(s.last())
    }
}

/// A double-quoted, escaped string literal.
pub open spec fn quoted(s: Seq<char>) -> Seq<char> {
    "\""@ + escaped(s) + "\""@
}

/// The C type of a constant declaration.
pub open spec fn kind_text(e: ConstEntry) -> Seq<char> {
    match e {
        ConstEntry::Int(_) => "int"@,
        ConstEntry::Str(_) => "char*"@,
        ConstEntry::Bool(_) => "char"@,
        ConstEntry::Uninit => "void*"@,
        ConstEntry::UninitInt => "int*"@,
        ConstEntry::UninitBool => "char*"@,
        ConstEntry::TupleInit => "Tuple"@,
    }
}

/// The initializer of a constant declaration.
pub open spec fn value_text(e: ConstEntry) -> Seq<char> {
    match e {
        ConstEntry::Int(v) => dec_i64(v),
        ConstEntry::Str(s) => quoted(s@),
        ConstEntry::Bool(b) => if b {
            "true"@
        } else {
            "false"@
        },
        ConstEntry::Uninit => "0"@,
        ConstEntry::UninitInt => "0"@,
        ConstEntry::UninitBool => "0"@,
        ConstEntry::TupleInit => "{0}"@,
    }
}

/// One constant declaration line.
pub open spec fn const_decl(id: u64, e: ConstEntry) -> Seq<char> {
    kind_text(e) + " v_"@ + dec_nat(id as nat) + " = "@ + value_text(e) + ";\n"@
}

/// One type tag declaration line.
pub open spec fn type_decl(id: u64, tag: u8) -> Seq<char> {
    "Kind t_"@ + dec_nat(id as nat) + " = "@ + dec_nat(tag as nat) + ";\n"@
}

/// The name an operator carries into a deferred runtime call.
pub open spec fn op_name(op: BinaryOp) -> Seq<char> {
    match op {
        BinaryOp::Add => "Add"@,
        BinaryOp::Sub => "Sub"@,
        BinaryOp::Mul => "Mul"@,
        BinaryOp::Div => "Div"@,
        BinaryOp::Rem => "Rem"@,
        BinaryOp::Lt => "Lt"@,
        BinaryOp::Gt => "Gt"@,
        BinaryOp::Lte => "Lte"@,
        BinaryOp::Gte => "Gte"@,
        BinaryOp::Eq => "Eq"@,
        BinaryOp::Neq => "Neq"@,
        BinaryOp::And => "And"@,
        BinaryOp::Or => "Or"@,
    }
}

/// The value argument of a deferred call: the operand slot's address.
pub open spec fn arg_val(a: BinArg) -> Seq<char> {
    "&v_"@ + dec_nat(a.slot as nat)
}

/// The tag argument of a deferred call: the operand slot's tag variable for
/// a variable, or the fixed `i`/`s` marker for a materialized constant.
pub open spec fn arg_tag(a: BinArg) -> Seq<char> {
    match a.kind {
        ArgKind::Var => "t_"@ + dec_nat(a.slot as nat),
        ArgKind::IntConst => "i"@,
        ArgKind::StrConst => "s"@,
    }
}

/// The text a deferred instruction replays as.
pub open spec fn instr_text(i: Instr) -> Seq<char> {
    match i {
        Instr::Concat { dst, lhs, rhs } => "v_"@ + dec_nat(dst as nat)
            + " = calloc(1024, sizeof(char));\nS(&v_"@ + dec_nat(dst as nat) + ",&t_"@ + dec_nat(
            dst as nat,
        ) + ","@ + arg_val(lhs) + ","@ + arg_val(rhs) + ","@ + arg_tag(lhs) + ","@ + arg_tag(rhs)
            + ");\n"@,
        Instr::Arith { dst, op, lhs, rhs } => "v_"@ + dec_nat(dst as nat)
            + " = calloc(1, sizeof(int));\nMathEvaluateA((int*)&v_"@ + dec_nat(dst as nat) + ","@
            + arg_val(lhs) + ","@ + arg_val(rhs) + ","@ + arg_tag(lhs) + ","@ + arg_tag(rhs) + ", "@
            + op_name(op) + ");\n"@,
        Instr::Compare { dst, op, lhs, rhs } => "v_"@ + dec_nat(dst as nat)
            + " = calloc(1, sizeof(char));\nBinaryEvaluateA((char*)&v_"@ + dec_nat(dst as nat)
            + ","@ + arg_val(lhs) + ","@ + arg_val(rhs) + ","@ + arg_tag(lhs) + ","@ + arg_tag(rhs)
            + ", "@ + op_name(op) + ");\n"@,
        Instr::TupleSet { dst, index, src } => if index == 0 {
            "v_"@ + dec_nat(dst as nat) + ".a = &v_"@ + dec_nat(src as nat) + ";\nv_"@ + dec_nat(
                dst as nat,
            ) + ".ta = t_"@ + dec_nat(src as nat) + ";\n"@
        } else {
            "v_"@ + dec_nat(dst as nat) + ".b = &v_"@ + dec_nat(src as nat) + ";\nv_"@ + dec_nat(
                dst as nat,
            ) + ".tb = t_"@ + dec_nat(src as nat) + ";\n"@
        },
        Instr::TupleGet { dst, src, index } => "TupleIdxA(&v_"@ + dec_nat(dst as nat) + ", &t_"@
            + dec_nat(dst as nat) + ", &v_"@ + dec_nat(src as nat) + ", t_"@ + dec_nat(src as nat)
            + ", "@ + dec_nat(index as nat) + ");\n"@,
    }
}

/// All constant declarations, in table order.
pub open spec fn const_section(s: Seq<(u64, ConstEntry)>) -> Seq<char>
    decreases s.len(),
{
    if s.len() == 0 {
        Seq::empty()
    } else {
        const_section(s.drop_last()) + const_decl(s.last().0, s.last().1)
    }
}

/// All type tag declarations, in table order.
pub open spec fn type_section(s: Seq<(u64, u8)>) -> Seq<char>
    decreases s.len(),
{
    if s.len() == 0 {
        Seq::empty()
    } else {
        type_section(s.drop_last()) + type_decl(s.last().0, s.last().1)
    }
}

/// A queue of deferred instructions, replayed verbatim in order.
pub open spec fn queue_text(q: Seq<Instr>) -> Seq<char>
    decreases q.len(),
{
    if q.len() == 0 {
        Seq::empty()
    } else {
        queue_text(q.drop_last()) + instr_text(q.last())
    }
}

/// One emitted function body: its scope's queue between header and brace.
pub open spec fn fn_section(s: State, slot: u64) -> Seq<char> {
    "void f_"@ + dec_nat(slot as nat) + "(void) {\n"@ + queue_text(s.queue_at(slot)) + "}\n"@
}

/// All function bodies, in definition order.
pub open spec fn fn_sections(s: State, fns: Seq<u64>) -> Seq<char>
    decreases fns.len(),
{
    if fns.len() == 0 {
        Seq::empty()
    } else {
        fn_sections(s, fns.drop_last()) + fn_section(s, fns.last())
    }
}

/// The runtime queue, replayed before any scope body.
pub open spec fn runtime_text(q: Seq<(u64, Instr)>) -> Seq<char>
    decreases q.len(),
{
    if q.len() == 0 {
        Seq::empty()
    } else {
        runtime_text(q.drop_last()) + instr_text(q.last().1)
    }
}

/// One print call line.
pub open spec fn print_line(id: u64) -> Seq<char> {
    "p((void*)&v_"@ + dec_nat(id as nat) + ", t_"@ + dec_nat(id as nat) + ");\n"@
}

/// All print calls, in print-queue order.
pub open spec fn print_text(q: Seq<u64>) -> Seq<char>
    decreases q.len(),
{
    if q.len() == 0 {
        Seq::empty()
    } else {
        print_text(q.drop_last()) + print_line(q.last())
    }
}

/// The whole artifact: preamble, constant and tag declarations, function
/// bodies, and the `main` body.
pub open spec fn emit_text(s: State, preamble: Seq<char>) -> Seq<char> {
    preamble + "\n"@ + const_section(s.constants@) + type_section(s.types@) + fn_sections(
        s,
        s.functions@,
    ) + "int main(void) {\n"@ + runtime_text(s.runtime_queue@) + queue_text(s.queue_at(SCOPE_MAIN))
        + print_text(s.print_queue@) + "return 0;\n}\n"@
}

/// The decimal digit below 10, as text.
fn digit_str(n: u64) -> (r: &'static str)
    requires
        n < 10,
    ensures
        r@ == seq![dec_digit(n as nat)],
{
    proof {
        reveal_strlit("0");
        reveal_strlit("1");
        reveal_strlit("2");
        reveal_strlit("3");
        reveal_strlit("4");
        reveal_strlit("5");
        reveal_strlit("6");
        reveal_strlit("7");
        reveal_strlit("8");
        reveal_strlit("9");
    }
    match n {
        0 => "0",
        1 => "1",
        2 => "2",
        3 => "3",
        4 => "4",
        5 => "5",
        6 => "6",
        7 => "7",
        8 => "8",
        _ => "9",
    }
}

/// Decimal rendering of an unsigned 64-bit number.
pub fn u64_dec(n: u64) -> (r: String)
    ensures
        r@ == dec_nat(n as nat),
    decreases n,
{
    if n < 10 {
        String::from_str(digit_str(n))
    } else {
        let mut s = u64_dec(n / 10);
        s.append(digit_str(n % 10));
        proof {
            assert(s@ =~= dec_nat((n / 10) as nat).push(dec_digit((n % 10) as nat)));
        }
        s
    }
}

/// Decimal rendering of a signed 64-bit number.
pub fn i64_dec(x: i64) -> (r: String)
    ensures
        r@ == dec_i64(x),
{
    if x >= 0 {
        u64_dec(x as u64)
    } else {
        let mag: u64 = if x == i64::MIN {
            9223372036854775808u64
        } else {
            (-x) as u64
        };
        let mut s = String::from_str("-");
        s.append(u64_dec(mag).as_str());
        proof {
            reveal_strlit("-");
            assert(s@ =~= seq!['-'] + dec_nat(mag as nat));
        }
        s
    }
}

/// Quote and escape a string constant.
pub fn quote_str(s: &String) -> (r: String)
    ensures
        r@ == quoted(s@),
{
    let mut out = String::from_str("\"");
    let text = s.as_str();
    let n = text.unicode_len();
    let mut i: usize = 0;
    proof {
        assert(s@.take(0).len() == 0);
        assert(out@ =~= "\""@ + escaped(s@.take(0)));
    }
    while i < n
        invariant
            i <= n,
            n == s@.len(),
            text@ == s@,
            out@ == "\""@ + escaped(s@.take(i as int)),
        decreases n - i,
    {
        let c = text.get_char(i);
        proof {
            assert(s@.take(i + 1).drop_last() =~= s@.take(i as int));
            assert(s@.take(i + 1).last() == s@[i as int]);
        }
        if c == '"' {
            out.append("\\\"");
        } else if c == '\\' {
            out.append("\\\\");
        } else if c == '\n' {
            out.append("\\n");
        } else if c == '\r' {
            out.append("\\r");
        } else if c == '\t' {
            out.append("\\t");
        } else {
            let piece = text.substring_char(i, i + 1);
            proof {
                assert(piece@ =~= seq![s@[i as int]]);
            }
            out.append(piece);
        }
        proof {
            assert(out@ =~= "\""@ + escaped(s@.take(i + 1)));
        }
        i = i + 1;
    }
    proof {
        assert(s@.take(n as int) =~= s@);
    }
    out.append("\"");
    proof {
        assert(out@ =~= quoted(s@));
    }
    out
}

/// Append one constant declaration line.
fn append_const_decl(out: &mut String, id: u64, e: &ConstEntry)
    ensures
        final(out)@ == old(out)@ + const_decl(id, *e),
{
    match e {
        ConstEntry::Int(v) => {
            out.append("int");
            out.append(" v_");
            out.append(u64_dec(id).as_str());
            out.append(" = ");
            out.append(i64_dec(*v).as_str());
            out.append(";\n");
        },
        ConstEntry::Str(s) => {
            out.append("char*");
            out.append(" v_");
            out.append(u64_dec(id).as_str());
            out.append(" = ");
            out.append(quote_str(s).as_str());
            out.append(";\n");
        },
        ConstEntry::Bool(b) => {
            out.append("char");
            out.append(" v_");
            out.append(u64_dec(id).as_str());
            out.append(" = ");
            if *b {
                out.append("true");
            } else {
                out.append("false");
            }
            out.append(";\n");
        },
        ConstEntry::Uninit => {
            out.append("void*");
            out.append(" v_");
            out.append(u64_dec(id).as_str());
            out.append(" = ");
            out.append("0");
            out.append(";\n");
        },
        ConstEntry::UninitInt => {
            out.append("int*");
            out.append(" v_");
            out.append(u64_dec(id).as_str());
            out.append(" = ");
            out.append("0");
            out.append(";\n");
        },
        ConstEntry::UninitBool => {
            out.append("char*");
            out.append(" v_");
            out.append(u64_dec(id).as_str());
            out.append(" = ");
            out.append("0");
            out.append(";\n");
        },
        ConstEntry::TupleInit => {
            out.append("Tuple");
            out.append(" v_");
            out.append(u64_dec(id).as_str());
            out.append(" = ");
            out.append("{0}");
            out.append(";\n");
        },
    }
    proof {
        assert(final(out)@ =~= old(out)@ + const_decl(id, *e));
    }
}

/// Append one type tag declaration line.
fn append_type_decl(out: &mut String, id: u64, tag: u8)
    ensures
        final(out)@ == old(out)@ + type_decl(id, tag),
{
    out.append("Kind t_");
    out.append(u64_dec(id).as_str());
    out.append(" = ");
    out.append(u64_dec(tag as u64).as_str());
    out.append(";\n");
    proof {
        assert(final(out)@ =~= old(out)@ + type_decl(id, tag));
    }
}

/// The operator's runtime name.
fn op_name_str(op: BinaryOp) -> (r: &'static str)
    ensures
        r@ == op_name(op),
{
    match op {
        BinaryOp::Add => "Add",
        BinaryOp::Sub => "Sub",
        BinaryOp::Mul => "Mul",
        BinaryOp::Div => "Div",
        BinaryOp::Rem => "Rem",
        BinaryOp::Lt => "Lt",
        BinaryOp::Gt => "Gt",
        BinaryOp::Lte => "Lte",
        BinaryOp::Gte => "Gte",
        BinaryOp::Eq => "Eq",
        BinaryOp::Neq => "Neq",
        BinaryOp::And => "And",
        BinaryOp::Or => "Or",
    }
}

/// Append the value argument of a deferred call.
fn append_arg_val(out: &mut String, a: &BinArg)
    ensures
        final(out)@ == old(out)@ + arg_val(*a),
{
    out.append("&v_");
    out.append(u64_dec(a.slot).as_str());
    proof {
        assert(final(out)@ =~= old(out)@ + arg_val(*a));
    }
}

/// Append the tag argument of a deferred call.
fn append_arg_tag(out: &mut String, a: &BinArg)
    ensures
        final(out)@ == old(out)@ + arg_tag(*a),
{
    match a.kind {
        ArgKind::Var => {
            out.append("t_");
            out.append(u64_dec(a.slot).as_str());
        },
        ArgKind::IntConst => {
            out.append("i");
        },
        ArgKind::StrConst => {
            out.append("s");
        },
    }
    proof {
        assert(final(out)@ =~= old(out)@ + arg_tag(*a));
    }
}

/// Append the text of one coercion-aware concatenation instruction.
#[verifier::rlimit(100)]
fn append_concat(out: &mut String, dst: u64, lhs: &BinArg, rhs: &BinArg)
    ensures
        final(out)@ == old(out)@ + instr_text((Instr::Concat { dst, lhs: *lhs, rhs: *rhs })),
{
            out.append("v_");
            out.append(u64_dec(dst).as_str());
            out.append(" = calloc(1024, sizeof(char));\nS(&v_");
            out.append(u64_dec(dst).as_str());
            out.append(",&t_");
            out.append(u64_dec(dst).as_str());
            out.append(",");
            append_arg_val(out, lhs);
            out.append(",");
            append_arg_val(out, rhs);
            out.append(",");
            append_arg_tag(out, lhs);
            out.append(",");
    append_arg_tag(out, rhs);
    out.append(");\n");
    proof {
        assert(final(out)@ =~= old(out)@ + instr_text((Instr::Concat { dst, lhs: *lhs, rhs: *rhs })));
    }
}

/// Append the text of one deferred arithmetic instruction.
#[verifier::rlimit(100)]
fn append_math(out: &mut String, dst: u64, op: BinaryOp, lhs: &BinArg, rhs: &BinArg)
    ensures
        final(out)@ == old(out)@ + instr_text((Instr::Arith { dst, op, lhs: *lhs, rhs: *rhs })),
{
            out.append("v_");
            out.append(u64_dec(dst).as_str());
            out.append(" = calloc(1, sizeof(int));\nMathEvaluateA((int*)&v_");
            out.append(u64_dec(dst).as_str());
            out.append(",");
            append_arg_val(out, lhs);
            out.append(",");
            append_arg_val(out, rhs);
            out.append(",");
            append_arg_tag(out, lhs);
            out.append(",");
            append_arg_tag(out, rhs);
            out.append(", ");
    out.append(op_name_str(op));
    out.append(");\n");
    proof {
        assert(final(out)@ =~= old(out)@ + instr_text((Instr::Arith { dst, op, lhs: *lhs, rhs: *rhs })));
    }
}

/// Append the text of one deferred comparison instruction.
#[verifier::rlimit(100)]
fn append_cmp(out: &mut String, dst: u64, op: BinaryOp, lhs: &BinArg, rhs: &BinArg)
    ensures
        final(out)@ == old(out)@ + instr_text((Instr::Compare { dst, op, lhs: *lhs, rhs: *rhs })),
{
            out.append("v_");
            out.append(u64_dec(dst).as_str());
            out.append(" = calloc(1, sizeof(char));\nBinaryEvaluateA((char*)&v_");
            out.append(u64_dec(dst).as_str());
            out.append(",");
            append_arg_val(out, lhs);
            out.append(",");
            append_arg_val(out, rhs);
            out.append(",");
            append_arg_tag(out, lhs);
            out.append(",");
            append_arg_tag(out, rhs);
            out.append(", ");
    out.append(op_name_str(op));
    out.append(");\n");
    proof {
        assert(final(out)@ =~= old(out)@ + instr_text((Instr::Compare { dst, op, lhs: *lhs, rhs: *rhs })));
    }
}

/// Append the text of one deferred instruction.
#[verifier::rlimit(100)]
fn append_instr(out: &mut String, i: &Instr)
    ensures
        final(out)@ == old(out)@ + instr_text(*i),
{
    match i {
        Instr::Concat { dst, lhs, rhs } => {
            append_concat(out, *dst, lhs, rhs);
        },
        Instr::Arith { dst, op, lhs, rhs } => {
            append_math(out, *dst, *op, lhs, rhs);
        },
        Instr::Compare { dst, op, lhs, rhs } => {
            append_cmp(out, *dst, *op, lhs, rhs);
        },
        Instr::TupleSet { dst, index, src } => {
            if *index == 0 {
                out.append("v_");
                out.append(u64_dec(*dst).as_str());
                out.append(".a = &v_");
                out.append(u64_dec(*src).as_str());
                out.append(";\nv_");
                out.append(u64_dec(*dst).as_str());
                out.append(".ta = t_");
                out.append(u64_dec(*src).as_str());
                out.append(";\n");
            } else {
                out.append("v_");
                out.append(u64_dec(*dst).as_str());
                out.append(".b = &v_");
                out.append(u64_dec(*src).as_str());
                out.append(";\nv_");
                out.append(u64_dec(*dst).as_str());
                out.append(".tb = t_");
                out.append(u64_dec(*src).as_str());
                out.append(";\n");
            }
            proof {
                assert(final(out)@ =~= old(out)@ + instr_text(*i));
            }
        },
        Instr::TupleGet { dst, src, index } => {
            out.append("TupleIdxA(&v_");
            out.append(u64_dec(*dst).as_str());
            out.append(", &t_");
            out.append(u64_dec(*dst).as_str());
            out.append(", &v_");
            out.append(u64_dec(*src).as_str());
            out.append(", t_");
            out.append(u64_dec(*src).as_str());
            out.append(", ");
            out.append(u64_dec(*index as u64).as_str());
            out.append(");\n");
            proof {
                assert(final(out)@ =~= old(out)@ + instr_text(*i));
            }
        },
    }
}

/// Append a whole instruction queue in order.
fn append_queue(out: &mut String, q: &Vec<Instr>)
    ensures
        final(out)@ == old(out)@ + queue_text(q@),
{
    let n = q.len();
    let mut i: usize = 0;
    proof {
        assert(out@ =~= old(out)@ + queue_text(q@.take(0)));
    }
    while i < n
        invariant
            i <= n,
            n == q@.len(),
            out@ == old(out)@ + queue_text(q@.take(i as int)),
        decreases n - i,
    {
        proof {
            assert(q@.take(i + 1).drop_last() =~= q@.take(i as int));
            assert(q@.take(i + 1).last() == q@[i as int]);
        }
        append_instr(out, &q[i]);
        proof {
            assert(out@ =~= old(out)@ + queue_text(q@.take(i + 1)));
        }
        i = i + 1;
    }
    proof {
        assert(q@.take(n as int) =~= q@);
    }
}

impl State {
    /// The evaluation queue entry of a scope, if one exists.
    fn queue_lookup(&self, scope: u64) -> (r: Option<&Vec<Instr>>)
        ensures
            match r {
                Some(v) => find_slot(self.evaluation_queue@, scope) == Some(*v),
                None => find_slot(self.evaluation_queue@, scope) is None,
            },
    {
        let mut i: usize = self.evaluation_queue.len();
        proof {
            assert(self.evaluation_queue@.take(i as int) =~= self.evaluation_queue@);
        }
        while i > 0
            invariant
                i <= self.evaluation_queue@.len(),
                find_slot(self.evaluation_queue@, scope) == find_slot(
                    self.evaluation_queue@.take(i as int),
                    scope,
                ),
            decreases i,
        {
            i = i - 1;
            proof {
                assert(self.evaluation_queue@.take(i + 1).drop_last() =~= self.evaluation_queue@.take(i as int));
                assert(self.evaluation_queue@.take(i + 1).last() == self.evaluation_queue@[i as int]);
            }
            if self.evaluation_queue[i].0 == scope {
                return Some(&self.evaluation_queue[i].1);
            }
        }
        proof {
            assert(self.evaluation_queue@.take(0).len() == 0);
        }
        None
    }

    /// Serialize the lowered state into the one output artifact, prefixed
    /// by the runtime-support `preamble`.  Consumes the state read-only;
    /// the exact text is pinned by [`emit_text`].
    pub fn emit(&self, preamble: &str) -> (r: String)
        requires
            self.wf(),
        ensures
            r@ == emit_text(*self, preamble@),
    {
        let mut out = String::new();
        out.append(preamble);
        out.append("\n");

        // constant declarations
        let nc = self.constants.len();
        let mut i: usize = 0;
        proof {
            assert(out@ =~= preamble@ + "\n"@ + const_section(self.constants@.take(0)));
        }
        while i < nc
            invariant
                i <= nc,
                nc == self.constants@.len(),
                out@ == preamble@ + "\n"@ + const_section(self.constants@.take(i as int)),
            decreases nc - i,
        {
            proof {
                assert(self.constants@.take(i + 1).drop_last() =~= self.constants@.take(i as int));
                assert(self.constants@.take(i + 1).last() == self.constants@[i as int]);
            }
            append_const_decl(&mut out, self.constants[i].0, &self.constants[i].1);
            proof {
                assert(out@ =~= preamble@ + "\n"@ + const_section(self.constants@.take(i + 1)));
            }
            i = i + 1;
        }
        proof {
            assert(self.constants@.take(nc as int) =~= self.constants@);
        }
        let ghost base1 = preamble@ + "\n"@ + const_section(self.constants@);

        // type tag declarations
        let nt = self.types.len();
        let mut i: usize = 0;
        proof {
            assert(out@ =~= base1 + type_section(self.types@.take(0)));
        }
        while i < nt
            invariant
                i <= nt,
                nt == self.types@.len(),
                out@ == base1 + type_section(self.types@.take(i as int)),
            decreases nt - i,
        {
            proof {
                assert(self.types@.take(i + 1).drop_last() =~= self.types@.take(i as int));
                assert(self.types@.take(i + 1).last() == self.types@[i as int]);
            }
            append_type_decl(&mut out, self.types[i].0, self.types[i].1);
            proof {
                assert(out@ =~= base1 + type_section(self.types@.take(i + 1)));
            }
            i = i + 1;
        }
        proof {
            assert(self.types@.take(nt as int) =~= self.types@);
        }
        let ghost base2 = base1 + type_section(self.types@);

        // one body per function
        let nf = self.functions.len();
        let mut i: usize = 0;
        proof {
            assert(out@ =~= base2 + fn_sections(*self, self.functions@.take(0)));
        }
        while i < nf
            invariant
                i <= nf,
                nf == self.functions@.len(),
                out@ == base2 + fn_sections(*self, self.functions@.take(i as int)),
            decreases nf - i,
        {
            proof {
                assert(self.functions@.take(i + 1).drop_last() =~= self.functions@.take(i as int));
                assert(self.functions@.take(i + 1).last() == self.functions@[i as int]);
            }
            let slot = self.functions[i];
            out.append("void f_");
            out.append(u64_dec(slot).as_str());
            out.append("(void) {\n");
            match self.queue_lookup(slot) {
                Some(q) => {
                    let body: Vec<Instr> = q.clone();
                    append_queue(&mut out, &body);
                    proof {
                        assert(body@ =~= self.queue_at(slot));
                    }
                },
                None => {
                    proof {
                        assert(self.queue_at(slot) =~= Seq::<Instr>::empty());
                        assert(queue_text(self.queue_at(slot)) =~= Seq::<char>::empty());
                    }
                },
            }
            out.append("}\n");
            proof {
                assert(out@ =~= base2 + fn_sections(*self, self.functions@.take(i + 1)));
            }
            i = i + 1;
        }
        proof {
            assert(self.functions@.take(nf as int) =~= self.functions@);
        }
        let ghost base3 = base2 + fn_sections(*self, self.functions@);

        // the program entry body
        out.append("int main(void) {\n");
        let ghost base4 = base3 + "int main(void) {\n"@;

        let nr = self.runtime_queue.len();
        let mut i: usize = 0;
        proof {
            assert(out@ =~= base4 + runtime_text(self.runtime_queue@.take(0)));
        }
        while i < nr
            invariant
                i <= nr,
                nr == self.runtime_queue@.len(),
                out@ == base4 + runtime_text(self.runtime_queue@.take(i as int)),
            decreases nr - i,
        {
            proof {
                assert(self.runtime_queue@.take(i + 1).drop_last() =~= self.runtime_queue@.take(
                    i as int,
                ));
                assert(self.runtime_queue@.take(i + 1).last() == self.runtime_queue@[i as int]);
            }
            append_instr(&mut out, &self.runtime_queue[i].1);
            proof {
                assert(out@ =~= base4 + runtime_text(self.runtime_queue@.take(i + 1)));
            }
            i = i + 1;
        }
        proof {
            assert(self.runtime_queue@.take(nr as int) =~= self.runtime_queue@);
        }
        let ghost base5 = base4 + runtime_text(self.runtime_queue@);

        match self.queue_lookup(SCOPE_MAIN) {
            Some(q) => {
                let body: Vec<Instr> = q.clone();
                append_queue(&mut out, &body);
                proof {
                    assert(body@ =~= self.queue_at(SCOPE_MAIN));
                }
            },
            None => {
                proof {
                    assert(self.queue_at(SCOPE_MAIN) =~= Seq::<Instr>::empty());
                    assert(queue_text(self.queue_at(SCOPE_MAIN)) =~= Seq::<char>::empty());
                }
            },
        }
        let ghost base6 = base5 + queue_text(self.queue_at(SCOPE_MAIN));
        proof {
            assert(out@ =~= base6);
        }

        let np = self.print_queue.len();
        let mut i: usize = 0;
        proof {
            assert(out@ =~= base6 + print_text(self.print_queue@.take(0)));
        }
        while i < np
            invariant
                i <= np,
                np == self.print_queue@.len(),
                out@ == base6 + print_text(self.print_queue@.take(i as int)),
            decreases np - i,
        {
            proof {
                assert(self.print_queue@.take(i + 1).drop_last() =~= self.print_queue@.take(
                    i as int,
                ));
                assert(self.print_queue@.take(i + 1).last() == self.print_queue@[i as int]);
            }
            let id = self.print_queue[i];
            out.append("p((void*)&v_");
            out.append(u64_dec(id).as_str());
            out.append(", t_");
            out.append(u64_dec(id).as_str());
            out.append(");\n");
            proof {
                assert(out@ =~= base6 + print_text(self.print_queue@.take(i + 1)));
            }
            i = i + 1;
        }
        proof {
            assert(self.print_queue@.take(np as int) =~= self.print_queue@);
        }

        out.append("return 0;\n}\n");
        proof {
            assert(out@ =~= emit_text(*self, preamble@));
        }
        out
    }
}

} // verus!
