//! The lowering engine: one recursive pass that turns a [`Term`] into the
//! flat representation held by a [`State`].
//!
//! Every visited node first reserves a fresh slot id.  Binary expressions go
//! through a folding matrix ([`spec_combine`]): literal operands fold to a
//! new constant, operands that involve a variable become one deferred
//! instruction in the enclosing scope's evaluation queue, and combinations
//! outside the matrix abort the pass with a [`LowerError`].

use crate::ast::term_kind;
use crate::ast::term_kind_of;
use crate::ast::BinaryOp;
use crate::ast::Term;
use crate::ast::TermKind;
use crate::state::find_name;
use crate::state::ArgKind;
use crate::state::BinArg;
use crate::state::ConstEntry;
use crate::state::ConstView;
use crate::state::Instr;
use crate::state::LowerError;
use crate::state::view_tag;
use crate::state::State;
use crate::state::SCOPE_MAIN;
use crate::state::TAG_BOOLEAN;
use crate::state::TAG_INT;
use crate::state::TAG_STRING;
use crate::state::TAG_TUPLE;
use crate::state::TAG_UNKNOWN;
use vstd::prelude::*;

verus! {

/// What the operand helper produced for one side of a binary expression: a
/// literal folded at lowering time, or a reference to an already lowered
/// slot (a variable, or a deferred result).
pub enum Operand {
    LitInt(i64),
    LitStr(String),
    LitBool(bool),
    Ref(u64),
}

/// The mathematical value of an [`Operand`].
pub enum OperandV {
    Int(i64),
    Str(Seq<char>),
    Bool(bool),
    Ref(u64),
}

impl View for Operand {
    type V = OperandV;

    open spec fn view(&self) -> OperandV {
        match self {
            Operand::LitInt(x) => OperandV::Int(*x),
            Operand::LitStr(s) => OperandV::Str(s@),
            Operand::LitBool(b) => OperandV::Bool(*b),
            Operand::Ref(id) => OperandV::Ref(*id),
        }
    }
}

/// The operand that a syntactically simple term denotes: a literal's value,
/// or the slot a variable resolves to.  `None` for a compound term (whose
/// operand value depends on lowering it first) and for an unbound variable.
pub open spec fn term_operand(s: State, scope: u64, t: Term) -> Option<OperandV> {
    match t {
        Term::Int(x) => Some(OperandV::Int(x)),
        Term::Str(x) => Some(OperandV::Str(x@)),
        Term::Bool(b) => Some(OperandV::Bool(b)),
        Term::Var(n) => match s.lookup_spec(scope, n@) {
            Some(id) => Some(OperandV::Ref(id)),
            None => None,
        },
        _ => None,
    }
}

/// Which family of deferred instruction a binary expression becomes when it
/// cannot be folded.
pub enum DeferKind {
    Concat,
    Arith,
    Compare,
}

/// The outcome of the folding matrix for one operator and operand pair.
pub enum CombineSpec {
    /// Folded at lowering time to this constant.
    Folded(ConstView),
    /// One deferred instruction of this family.
    Deferred(DeferKind),
    /// The combination is outside the matrix: the pass aborts.
    Fail(LowerError),
}

/// Rust's truncating `i64` division, with the one wrapping case
/// `i64::MIN / -1`.
pub open spec fn wrap_div(x: i64, y: i64) -> i64
    recommends
        y != 0,
{
    match x.checked_div(y) {
        Some(q) => q,
        None => i64::MIN,
    }
}

/// Rust's truncating `i64` remainder, with the one wrapping case
/// `i64::MIN % -1`.
pub open spec fn wrap_rem(x: i64, y: i64) -> i64
    recommends
        y != 0,
{
    match x.checked_rem(y) {
        Some(r) => r,
        None => 0,
    }
}

/// The folding matrix: for an operator and the two operands, whether the
/// result is folded, deferred to one runtime instruction, or a fatal error.
///
/// Integer folding wraps on `i64` overflow; `Div` and `Rem` by a folded zero
/// abort with [`LowerError::DivisionByZero`].  `And` and `Or` exist only for
/// literal booleans and are never deferred.
pub open spec fn spec_combine(op: BinaryOp, a: OperandV, b: OperandV) -> CombineSpec {
    match op {
        BinaryOp::Add => match (a, b) {
            (OperandV::Int(x), OperandV::Int(y)) => CombineSpec::Folded(
                ConstView::Int(x.wrapping_add(y)),
            ),
            (OperandV::Str(s), OperandV::Str(t)) => CombineSpec::Folded(ConstView::Str(s + t)),
            (OperandV::Ref(_), OperandV::Int(_)) => CombineSpec::Deferred(DeferKind::Concat),
            (OperandV::Int(_), OperandV::Ref(_)) => CombineSpec::Deferred(DeferKind::Concat),
            (OperandV::Ref(_), OperandV::Str(_)) => CombineSpec::Deferred(DeferKind::Concat),
            (OperandV::Str(_), OperandV::Ref(_)) => CombineSpec::Deferred(DeferKind::Concat),
            (OperandV::Ref(_), OperandV::Ref(_)) => CombineSpec::Deferred(DeferKind::Concat),
            _ => CombineSpec::Fail((LowerError::TypeMismatch { kind: TermKind::Binary, op: Some(op) })),
        },
        BinaryOp::Sub | BinaryOp::Mul | BinaryOp::Div | BinaryOp::Rem => match (a, b) {
            (OperandV::Int(x), OperandV::Int(y)) => match op {
                BinaryOp::Sub => CombineSpec::Folded(ConstView::Int(x.wrapping_sub(y))),
                BinaryOp::Mul => CombineSpec::Folded(ConstView::Int(x.wrapping_mul(y))),
                BinaryOp::Div => if y == 0 {
                    CombineSpec::Fail(LowerError::DivisionByZero(op))
                } else {
                    CombineSpec::Folded(ConstView::Int(wrap_div(x, y)))
                },
                _ => if y == 0 {
                    CombineSpec::Fail(LowerError::DivisionByZero(op))
                } else {
                    CombineSpec::Folded(ConstView::Int(wrap_rem(x, y)))
                },
            },
            (OperandV::Ref(_), OperandV::Int(_)) => CombineSpec::Deferred(DeferKind::Arith),
            (OperandV::Int(_), OperandV::Ref(_)) => CombineSpec::Deferred(DeferKind::Arith),
            (OperandV::Ref(_), OperandV::Ref(_)) => CombineSpec::Deferred(DeferKind::Arith),
            _ => CombineSpec::Fail((LowerError::TypeMismatch { kind: TermKind::Binary, op: Some(op) })),
        },
        BinaryOp::Lt | BinaryOp::Gt | BinaryOp::Lte | BinaryOp::Gte => match (a, b) {
            (OperandV::Int(x), OperandV::Int(y)) => CombineSpec::Folded(
                ConstView::Bool(
                    match op {
                        BinaryOp::Lt => x < y,
                        BinaryOp::Gt => x > y,
                        BinaryOp::Lte => x <= y,
                        _ => x >= y,
                    },
                ),
            ),
            (OperandV::Ref(_), OperandV::Int(_)) => CombineSpec::Deferred(DeferKind::Compare),
            (OperandV::Int(_), OperandV::Ref(_)) => CombineSpec::Deferred(DeferKind::Compare),
            (OperandV::Ref(_), OperandV::Str(_)) => CombineSpec::Deferred(DeferKind::Compare),
            (OperandV::Str(_), OperandV::Ref(_)) => CombineSpec::Deferred(DeferKind::Compare),
            (OperandV::Ref(_), OperandV::Ref(_)) => CombineSpec::Deferred(DeferKind::Compare),
            _ => CombineSpec::Fail((LowerError::TypeMismatch { kind: TermKind::Binary, op: Some(op) })),
        },
        BinaryOp::Eq | BinaryOp::Neq => match (a, b) {
            (OperandV::Int(x), OperandV::Int(y)) => CombineSpec::Folded(
                ConstView::Bool(if op == BinaryOp::Eq { x == y } else { x != y }),
            ),
            (OperandV::Str(s), OperandV::Str(t)) => CombineSpec::Folded(
                ConstView::Bool(if op == BinaryOp::Eq { s == t } else { s != t }),
            ),
            (OperandV::Bool(x), OperandV::Bool(y)) => CombineSpec::Folded(
                ConstView::Bool(if op == BinaryOp::Eq { x == y } else { x != y }),
            ),
            (OperandV::Ref(_), OperandV::Int(_)) => CombineSpec::Deferred(DeferKind::Compare),
            (OperandV::Int(_), OperandV::Ref(_)) => CombineSpec::Deferred(DeferKind::Compare),
            (OperandV::Ref(_), OperandV::Str(_)) => CombineSpec::Deferred(DeferKind::Compare),
            (OperandV::Str(_), OperandV::Ref(_)) => CombineSpec::Deferred(DeferKind::Compare),
            (OperandV::Ref(_), OperandV::Ref(_)) => CombineSpec::Deferred(DeferKind::Compare),
            _ => CombineSpec::Fail((LowerError::TypeMismatch { kind: TermKind::Binary, op: Some(op) })),
        },
        BinaryOp::And | BinaryOp::Or => match (a, b) {
            (OperandV::Bool(x), OperandV::Bool(y)) => CombineSpec::Folded(
                ConstView::Bool(if op == BinaryOp::And { x && y } else { x || y }),
            ),
            _ => CombineSpec::Fail((LowerError::TypeMismatch { kind: TermKind::Binary, op: Some(op) })),
        },
    }
}

/// The placeholder constant recorded for a deferred result slot.
pub open spec fn defer_placeholder(k: DeferKind) -> ConstView {
    match k {
        DeferKind::Concat => ConstView::Uninit,
        DeferKind::Arith => ConstView::UninitInt,
        DeferKind::Compare => ConstView::UninitBool,
    }
}

/// The constant a literal operand materializes to.
pub open spec fn lit_const_view(o: OperandV) -> ConstView {
    match o {
        OperandV::Int(x) => ConstView::Int(x),
        OperandV::Str(s) => ConstView::Str(s),
        OperandV::Bool(b) => ConstView::Bool(b),
        OperandV::Ref(_) => ConstView::Uninit,
    }
}

/// How one operand appears in a deferred instruction: a variable by its
/// slot, a literal by the slot `m` it was materialized at.
pub open spec fn arg_of(o: OperandV, m: u64) -> BinArg {
    match o {
        OperandV::Ref(id) => (BinArg { slot: id, kind: ArgKind::Var }),
        OperandV::Int(_) => (BinArg { slot: m, kind: ArgKind::IntConst }),
        OperandV::Str(_) => (BinArg { slot: m, kind: ArgKind::StrConst }),
        OperandV::Bool(_) => (BinArg { slot: m, kind: ArgKind::Var }),
    }
}

/// The deferred instruction of one family.
pub open spec fn defer_instr(op: BinaryOp, k: DeferKind, dst: u64, la: BinArg, lb: BinArg) -> Instr {
    match k {
        DeferKind::Concat => (Instr::Concat { dst, lhs: la, rhs: lb }),
        DeferKind::Arith => (Instr::Arith { dst, op, lhs: la, rhs: lb }),
        DeferKind::Compare => (Instr::Compare { dst, op, lhs: la, rhs: lb }),
    }
}

/// The operand a folded literal constant stands for.
pub open spec fn lit_operand(cv: ConstView) -> OperandV {
    match cv {
        ConstView::Int(x) => OperandV::Int(x),
        ConstView::Str(s) => OperandV::Str(s),
        ConstView::Bool(b) => OperandV::Bool(b),
        _ => OperandV::Ref(0),
    }
}

/// The value of a literal term, if it is one.
pub open spec fn lit_view(t: Term) -> Option<ConstView> {
    match t {
        Term::Int(x) => Some(ConstView::Int(x)),
        Term::Str(s) => Some(ConstView::Str(s@)),
        Term::Bool(b) => Some(ConstView::Bool(b)),
        _ => None,
    }
}

/// An upper bound on how many slot ids lowering `t` can assign; used to show
/// the slot counter never overflows.
pub open spec fn slots_bound(t: Term) -> nat
    decreases t,
{
    match t {
        Term::Int(_) => 1,
        Term::Str(_) => 1,
        Term::Bool(_) => 1,
        Term::Var(_) => 1,
        Term::Binary { op: _, lhs, rhs } => 3 + slots_bound(*lhs) + slots_bound(*rhs),
        Term::Let { name: _, value, next } => 1 + slots_bound(*value) + slots_bound(*next),
        Term::If { condition, then, otherwise } => 1 + slots_bound(*condition) + slots_bound(*then)
            + slots_bound(*otherwise),
        Term::Print(v) => 1 + slots_bound(*v),
        Term::Tuple { first, second } => 1 + slots_bound(*first) + slots_bound(*second),
        Term::First(v) => 1 + slots_bound(*v),
        Term::Second(v) => 1 + slots_bound(*v),
        Term::Function { parameters, body } => 1 + parameters@.len() + slots_bound(*body),
        Term::Call { callee: _, arguments: _ } => 1,
        Term::Error(_) => 1,
    }
}

/// Nothing of the state changed but (possibly) the slot counter.
pub open spec fn unchanged_but_counter(pre: State, post: State) -> bool {
    &&& post.constants@ == pre.constants@
    &&& post.types@ == pre.types@
    &&& post.print_queue@ == pre.print_queue@
    &&& post.functions@ == pre.functions@
    &&& post.named_functions@ == pre.named_functions@
    &&& post.scoped_variables@ == pre.scoped_variables@
    &&& post.evaluation_queue@ == pre.evaluation_queue@
    &&& post.runtime_queue@ == pre.runtime_queue@
}

/// The node folded: exactly one new constant `v` with its tag, recorded at
/// the node's reserved slot `ret`, and nothing else changed.
pub open spec fn folds_to(pre: State, post: State, ret: u64, v: ConstView) -> bool {
    &&& ret == pre.it + 1
    &&& post.it == pre.it + 1
    &&& post.const_view_at(ret) == Some(v)
    &&& post.tag_at(ret) == Some(view_tag(v))
    &&& post.constants@.len() == pre.constants@.len() + 1
    &&& post.types@.len() == pre.types@.len() + 1
    &&& post.print_queue@ == pre.print_queue@
    &&& post.functions@ == pre.functions@
    &&& post.named_functions@ == pre.named_functions@
    &&& post.scoped_variables@ == pre.scoped_variables@
    &&& post.evaluation_queue@ == pre.evaluation_queue@
    &&& post.runtime_queue@ == pre.runtime_queue@
}

/// The node deferred: a placeholder at the reserved slot `ret`, at most one
/// literal operand materialized at `pre.it + 2`, and exactly one instruction
/// appended to `scope`'s queue.
pub open spec fn defers_to(
    pre: State,
    post: State,
    scope: u64,
    ret: u64,
    op: BinaryOp,
    k: DeferKind,
    a: OperandV,
    b: OperandV,
) -> bool {
    let dst = (pre.it + 1) as u64;
    let m = (pre.it + 2) as u64;
    &&& ret == dst
    &&& post.const_view_at(dst) == Some(defer_placeholder(k))
    &&& post.tag_at(dst) == Some(view_tag(defer_placeholder(k)))
    &&& post.queue_at(scope) == pre.queue_at(scope).push(
        defer_instr(op, k, dst, arg_of(a, m), arg_of(b, m)),
    )
    &&& forall|sc: u64| sc != scope ==> post.queue_at(sc) == pre.queue_at(sc)
    &&& post.print_queue@ == pre.print_queue@
    &&& post.functions@ == pre.functions@
    &&& post.named_functions@ == pre.named_functions@
    &&& post.scoped_variables@ == pre.scoped_variables@
    &&& post.runtime_queue@ == pre.runtime_queue@
    &&& match (a, b) {
        (OperandV::Ref(_), OperandV::Ref(_)) => post.it == pre.it + 1
            && post.constants@.len() == pre.constants@.len() + 1 && post.types@.len()
            == pre.types@.len() + 1,
        (OperandV::Ref(_), _) => post.it == pre.it + 2 && post.const_view_at(m) == Some(
            lit_const_view(b),
        ) && post.tag_at(m) == Some(view_tag(lit_const_view(b))),
        (_, OperandV::Ref(_)) => post.it == pre.it + 2 && post.const_view_at(m) == Some(
            lit_const_view(a),
        ) && post.tag_at(m) == Some(view_tag(lit_const_view(a))),
        _ => false,
    }
}

/// What lowering a binary node guarantees once both operands are known:
/// exactly what the folding matrix prescribes.
pub open spec fn combine_post(
    pre: State,
    post: State,
    scope: u64,
    r: Result<u64, LowerError>,
    op: BinaryOp,
    a: OperandV,
    b: OperandV,
) -> bool {
    match spec_combine(op, a, b) {
        CombineSpec::Folded(v) => r matches Ok(id) && folds_to(pre, post, id, v),
        CombineSpec::Deferred(k) => r matches Ok(id) && defers_to(pre, post, scope, id, op, k, a, b),
        CombineSpec::Fail(e) => r matches Err(e2) && e2 == e && post.it == pre.it + 1
            && unchanged_but_counter(pre, post),
    }
}

/// One fresh slot id was reserved and nothing else changed.
pub open spec fn step_alloc(a: State, b: State) -> bool {
    b.it == a.it + 1 && unchanged_but_counter(a, b)
}

/// Exactly the constant `v`, with its tag, was recorded at slot `id`.
pub open spec fn step_record(a: State, b: State, id: u64, v: ConstView) -> bool {
    &&& b.it == a.it
    &&& b.constants@.len() == a.constants@.len() + 1
    &&& b.constants@ == a.constants@.push(b.constants@.last())
    &&& b.constants@.last().0 == id
    &&& b.constants@.last().1@ == v
    &&& b.types@ == a.types@.push((id, view_tag(v)))
    &&& b.print_queue@ == a.print_queue@
    &&& b.functions@ == a.functions@
    &&& b.named_functions@ == a.named_functions@
    &&& b.scoped_variables@ == a.scoped_variables@
    &&& b.evaluation_queue@ == a.evaluation_queue@
    &&& b.runtime_queue@ == a.runtime_queue@
}

/// Exactly `instr` was appended to `scope`'s evaluation queue.
pub open spec fn step_instr(a: State, b: State, scope: u64, instr: Instr) -> bool {
    &&& b.it == a.it
    &&& b.queue_at(scope) == a.queue_at(scope).push(instr)
    &&& forall|sc: u64| sc != scope ==> b.queue_at(sc) == a.queue_at(sc)
    &&& b.constants@ == a.constants@
    &&& b.types@ == a.types@
    &&& b.print_queue@ == a.print_queue@
    &&& b.functions@ == a.functions@
    &&& b.named_functions@ == a.named_functions@
    &&& b.scoped_variables@ == a.scoped_variables@
    &&& b.runtime_queue@ == a.runtime_queue@
}

/// The state steps of one deferred binary operation: the literal operand, if
/// there is one, materialized at the next slot, the placeholder recorded at
/// the reserved slot `dst`, and the one instruction appended.
pub open spec fn defer_steps(
    s0: State,
    post: State,
    op: BinaryOp,
    k: DeferKind,
    a: OperandV,
    b: OperandV,
    scope: u64,
    dst: u64,
) -> bool {
    match (a, b) {
        (OperandV::Ref(_), OperandV::Ref(_)) => exists|s4: State|
            #[trigger] step_record(s0, s4, dst, defer_placeholder(k)) && step_instr(
                s4,
                post,
                scope,
                defer_instr(
                    op,
                    k,
                    dst,
                    arg_of(a, ((s0.it + 1) as u64)),
                    arg_of(b, ((s0.it + 1) as u64)),
                ),
            ),
        (OperandV::Ref(_), _) => exists|s1: State|
            #[trigger] step_alloc(s0, s1) && exists|s2: State|
                #[trigger] step_record(s1, s2, ((s0.it + 1) as u64), lit_const_view(b)) && exists|
                    s3: State,
                |
                    #[trigger] step_record(s2, s3, dst, defer_placeholder(k)) && step_instr(
                        s3,
                        post,
                        scope,
                        defer_instr(
                            op,
                            k,
                            dst,
                            arg_of(a, ((s0.it + 1) as u64)),
                            arg_of(b, ((s0.it + 1) as u64)),
                        ),
                    ),
        _ => exists|s1: State|
            #[trigger] step_alloc(s0, s1) && exists|s2: State|
                #[trigger] step_record(s1, s2, ((s0.it + 1) as u64), lit_const_view(a)) && exists|
                    s3: State,
                |
                    #[trigger] step_record(s2, s3, dst, defer_placeholder(k)) && step_instr(
                        s3,
                        post,
                        scope,
                        defer_instr(
                            op,
                            k,
                            dst,
                            arg_of(a, ((s0.it + 1) as u64)),
                            arg_of(b, ((s0.it + 1) as u64)),
                        ),
                    ),
    }
}

/// What dispatching one binary operator over two folded operands does, with
/// the result slot `dst` already reserved: exactly what the folding matrix
/// prescribes, as a chain of elementary state steps.
pub open spec fn disp_rel(
    s0: State,
    op: BinaryOp,
    a: OperandV,
    b: OperandV,
    scope: u64,
    dst: u64,
    post: State,
    r: Result<u64, LowerError>,
) -> bool {
    match spec_combine(op, a, b) {
        CombineSpec::Folded(v) => r matches Ok(id) && id == dst && step_record(s0, post, dst, v),
        CombineSpec::Deferred(k) => r matches Ok(id) && id == dst && defer_steps(
            s0,
            post,
            op,
            k,
            a,
            b,
            scope,
            dst,
        ),
        CombineSpec::Fail(e) => post == s0 && (r matches Err(e2) && e2 == e),
    }
}

impl State {
    /// Record a literal operand as a fresh constant slot, so that a deferred
    /// instruction can reference it.
    fn materialize(&mut self, o: &Operand) -> (m: u64)
        requires
            old(self).wf(),
            old(self).it < u64::MAX,
            !(o@ matches OperandV::Ref(_)),
        ensures
            final(self).wf(),
            State::extends(*old(self), *final(self)),
            State::records_fresh(*old(self), *final(self)),
            final(self).it == old(self).it + 1,
            m == old(self).it + 1,
            final(self).const_view_at(m) == Some(lit_const_view(o@)),
            final(self).tag_at(m) == Some(view_tag(lit_const_view(o@))),
            final(self).constants@.len() == old(self).constants@.len() + 1,
            final(self).types@.len() == old(self).types@.len() + 1,
            final(self).constants@[old(self).constants@.len() as int].0 == m,
            final(self).types@[old(self).types@.len() as int].0 == m,
            final(self).constants@ == old(self).constants@.push(final(self).constants@.last()),
            final(self).constants@.last().1@ == lit_const_view(o@),
            final(self).types@ == old(self).types@.push(
                (((old(self).it + 1) as u64), view_tag(lit_const_view(o@))),
            ),
            final(self).print_queue@ == old(self).print_queue@,
            final(self).functions@ == old(self).functions@,
            final(self).named_functions@ == old(self).named_functions@,
            final(self).scoped_variables@ == old(self).scoped_variables@,
            final(self).evaluation_queue@ == old(self).evaluation_queue@,
            final(self).runtime_queue@ == old(self).runtime_queue@,
    {
        let ghost s0 = *self;
        let m = self.next_slot();
        let ghost s1 = *self;
        proof {
            assert(forall|i: int|
                0 <= i < self.constants@.len() ==> (#[trigger] self.constants@[i]).0 != m);
            assert(forall|i: int|
                0 <= i < self.types@.len() ==> (#[trigger] self.types@[i]).0 != m);
        }
        match o {
            Operand::LitInt(x) => self.record(m, ConstEntry::Int(*x), TAG_INT),
            Operand::LitStr(s) => self.record(m, ConstEntry::Str(s.clone()), TAG_STRING),
            Operand::LitBool(b) => self.record(m, ConstEntry::Bool(*b), TAG_BOOLEAN),
            Operand::Ref(_) => {
                proof {
                    assert(false);
                }
            },
        }
        proof {
            State::lemma_extends_trans(s0, s1, *self);
        }
        m
    }

    /// Lower one deferred binary operation: materialize a literal operand if
    /// there is one, record the placeholder for the result at the already
    /// reserved slot `dst`, and append the instruction to `scope`'s queue.
    fn emit_deferred(
        &mut self,
        dst: u64,
        op: BinaryOp,
        kind: DeferKind,
        a: &Operand,
        b: &Operand,
        scope: u64,
    )
        requires
            old(self).wf(),
            scope <= old(self).it,
            old(self).it < u64::MAX,
            1 <= dst <= old(self).it,
            forall|i: int|
                0 <= i < old(self).constants@.len() ==> (#[trigger] old(self).constants@[i]).0
                    != dst,
            forall|i: int|
                0 <= i < old(self).types@.len() ==> (#[trigger] old(self).types@[i]).0 != dst,
            a@ matches OperandV::Ref(_) || b@ matches OperandV::Ref(_),
            !(a@ matches OperandV::Bool(_)),
            !(b@ matches OperandV::Bool(_)),
            a@ matches OperandV::Ref(x) ==> old(self).slot_defined(x),
            b@ matches OperandV::Ref(y) ==> old(self).slot_defined(y),
        ensures
            final(self).wf(),
            State::extends(*old(self), *final(self)),
            defer_steps(*old(self), *final(self), op, kind, a@, b@, scope, dst),
            final(self).queue_at(scope) == old(self).queue_at(scope).push(
                defer_instr(
                    op,
                    kind,
                    dst,
                    arg_of(a@, ((old(self).it + 1) as u64)),
                    arg_of(b@, ((old(self).it + 1) as u64)),
                ),
            ),
            forall|sc: u64| sc != scope ==> final(self).queue_at(sc) == old(self).queue_at(sc),
            final(self).const_view_at(dst) == Some(defer_placeholder(kind)),
            final(self).tag_at(dst) == Some(view_tag(defer_placeholder(kind))),
            final(self).print_queue@ == old(self).print_queue@,
            final(self).functions@ == old(self).functions@,
            final(self).named_functions@ == old(self).named_functions@,
            final(self).scoped_variables@ == old(self).scoped_variables@,
            final(self).runtime_queue@ == old(self).runtime_queue@,
            match (a@, b@) {
                (OperandV::Ref(_), OperandV::Ref(_)) => {
                    &&& final(self).it == old(self).it
                    &&& final(self).constants@.len() == old(self).constants@.len() + 1
                    &&& final(self).types@.len() == old(self).types@.len() + 1
                },
                (OperandV::Ref(_), _) => {
                    &&& final(self).it == old(self).it + 1
                    &&& final(self).const_view_at(((old(self).it + 1) as u64)) == Some(
                        lit_const_view(b@),
                    )
                    &&& final(self).tag_at(((old(self).it + 1) as u64)) == Some(
                        view_tag(lit_const_view(b@)),
                    )
                },
                (_, OperandV::Ref(_)) => {
                    &&& final(self).it == old(self).it + 1
                    &&& final(self).const_view_at(((old(self).it + 1) as u64)) == Some(
                        lit_const_view(a@),
                    )
                    &&& final(self).tag_at(((old(self).it + 1) as u64)) == Some(
                        view_tag(lit_const_view(a@)),
                    )
                },
                _ => false,
            },
            forall|i: int|
                old(self).constants@.len() <= i < final(self).constants@.len() ==> ((
                #[trigger] final(self).constants@[i]).0 == dst || final(self).constants@[i].0 > old(self).it),
            forall|i: int|
                old(self).types@.len() <= i < final(self).types@.len() ==> ((
                #[trigger] final(self).types@[i]).0 == dst || final(self).types@[i].0 > old(self).it),
    {
        let ghost s0 = *self;
        let la = match a {
            Operand::Ref(x) => (BinArg { slot: *x, kind: ArgKind::Var }),
            Operand::LitInt(_) => {
                let m = self.materialize(a);
                (BinArg { slot: m, kind: ArgKind::IntConst })
            },
            Operand::LitStr(_) => {
                let m = self.materialize(a);
                (BinArg { slot: m, kind: ArgKind::StrConst })
            },
            Operand::LitBool(_) => {
                proof {
                    assert(false);
                }
                (BinArg { slot: 0, kind: ArgKind::Var })
            },
        };
        let ghost s1 = *self;
        let lb = match b {
            Operand::Ref(y) => (BinArg { slot: *y, kind: ArgKind::Var }),
            Operand::LitInt(_) => {
                let m = self.materialize(b);
                (BinArg { slot: m, kind: ArgKind::IntConst })
            },
            Operand::LitStr(_) => {
                let m = self.materialize(b);
                (BinArg { slot: m, kind: ArgKind::StrConst })
            },
            Operand::LitBool(_) => {
                proof {
                    assert(false);
                }
                (BinArg { slot: 0, kind: ArgKind::Var })
            },
        };
        let ghost s2 = *self;
        let entry = match kind {
            DeferKind::Concat => ConstEntry::Uninit,
            DeferKind::Arith => ConstEntry::UninitInt,
            DeferKind::Compare => ConstEntry::UninitBool,
        };
        let tag = match kind {
            DeferKind::Concat => TAG_UNKNOWN,
            DeferKind::Arith => TAG_INT,
            DeferKind::Compare => TAG_BOOLEAN,
        };
        proof {
            assert(forall|i: int|
                0 <= i < self.constants@.len() ==> (#[trigger] self.constants@[i]).0 != dst);
            assert(forall|i: int|
                0 <= i < self.types@.len() ==> (#[trigger] self.types@[i]).0 != dst);
        }
        self.record(dst, entry, tag);
        let ghost s3 = *self;
        let instr = match kind {
            DeferKind::Concat => (Instr::Concat { dst, lhs: la, rhs: lb }),
            DeferKind::Arith => (Instr::Arith { dst, op, lhs: la, rhs: lb }),
            DeferKind::Compare => (Instr::Compare { dst, op, lhs: la, rhs: lb }),
        };
        self.push_instr(scope, instr);
        proof {
            State::lemma_extends_trans(s0, s1, s2);
            State::lemma_extends_trans(s0, s2, s3);
            State::lemma_extends_trans(s0, s3, *self);
            let m = ((s0.it + 1) as u64);
            if a@ matches OperandV::Ref(_) {
                if b@ matches OperandV::Ref(_) {
                    assert(step_record(s0, s3, dst, defer_placeholder(kind)));
                    assert(step_instr(s3, *self, scope, instr));
                } else {
                    let mid = (State { it: m, ..s0 });
                    assert(step_alloc(s0, mid));
                    assert(step_record(mid, s2, m, lit_const_view(b@)));
                    assert(step_record(s2, s3, dst, defer_placeholder(kind)));
                    assert(step_instr(s3, *self, scope, instr));
                }
            } else {
                let mid = (State { it: m, ..s0 });
                assert(step_alloc(s0, mid));
                assert(step_record(mid, s1, m, lit_const_view(a@)));
                assert(step_record(s1, s3, dst, defer_placeholder(kind)));
                assert(step_instr(s3, *self, scope, instr));
            }
            assert(defer_steps(s0, *self, op, kind, a@, b@, scope, dst));
        }
    }

    /// The operand helper: fold a term to a literal if its value is known at
    /// lowering time, otherwise leave a reference to its slot.  A `Print`
    /// operand is lowered and registered in the print queue as a side
    /// effect, and folding sees through it to the printed value.  A term
    /// kind that cannot appear as an operand is a type mismatch.
    pub fn fold_operand(&mut self, term: &Term, scope: u64) -> (r: Result<
        Operand,
        LowerError,
    >)
        requires
            old(self).wf(),
            scope <= old(self).it,
            old(self).it + slots_bound(*term) <= u64::MAX,
        ensures
            final(self).wf(),
            State::extends(*old(self), *final(self)),
            State::records_fresh(*old(self), *final(self)),
            old(self).it <= final(self).it,
            final(self).it <= old(self).it + slots_bound(*term),
            r matches Ok(o) ==> (o matches Operand::Ref(id) ==> 1 <= id <= final(self).it
                && final(self).slot_defined(id)),
            term_operand(*old(self), scope, *term) matches Some(v) ==> r matches Ok(o) && o@ == v,
            (*term matches Term::Int(_) || *term matches Term::Str(_) || *term matches Term::Bool(
                _,
            )) ==> *final(self) == *old(self),
            *term matches Term::Print(v) ==> (match lit_view(*v) {
                Some(cv) => r matches Ok(o) && o@ == lit_operand(cv) && final(self).it == old(self).it + 1 && final(self).const_view_at(((old(self).it + 1) as u64)) == Some(cv)
                    && final(self).print_queue@ == old(self).print_queue@.push(
                    ((old(self).it + 1) as u64),
                ) && final(self).constants@.len() == old(self).constants@.len() + 1 && final(self).evaluation_queue@ == old(self).evaluation_queue@ && final(self).scoped_variables@
                    == old(self).scoped_variables@,
                None => true,
            }),
            *term matches Term::Print(v) ==> (match *v {
                Term::Var(n) => (match old(self).lookup_spec(scope, n@) {
                    Some(id0) => r matches Ok(o) && o@ == OperandV::Ref(id0) && final(self).it
                        == old(self).it + 1 && final(self).print_queue@ == old(self).print_queue@.push(id0) && final(self).constants@ == old(self).constants@
                        && final(self).types@ == old(self).types@ && final(self).evaluation_queue@
                        == old(self).evaluation_queue@ && final(self).scoped_variables@ == old(self).scoped_variables@,
                    None => r matches Err(e) && (e matches LowerError::UnboundVariable(m) && m@
                        == n@),
                }),
                _ => true,
            }),
            *term matches Term::Var(n) ==> *final(self) == *old(self) && (old(self).lookup_spec(
                scope,
                n@,
            ) is None ==> (r matches Err(e) && (e matches LowerError::UnboundVariable(m) && m@
                == n@))),
            (*term matches Term::Let { .. } || *term matches Term::If { .. }
                || *term matches Term::Tuple { .. } || *term matches Term::First(_)
                || *term matches Term::Second(_) || *term matches Term::Function { .. }
                || *term matches Term::Call { .. } || *term matches Term::Error(_)) ==> (
            r matches Err(e) && e == (LowerError::TypeMismatch {
                kind: term_kind(*term),
                op: None,
            })) && *final(self) == *old(self),
        decreases *term, 3int,
    {
        match term {
            Term::Int(x) => Ok(Operand::LitInt(*x)),
            Term::Str(s) => Ok(Operand::LitStr(s.clone())),
            Term::Bool(b) => Ok(Operand::LitBool(*b)),
            Term::Var(n) => match self.lookup(scope, n) {
                Some(id) => {
                    proof {
                        crate::state::lemma_find_slot_in(self.constants@, id);
                    }
                    Ok(Operand::Ref(id))
                },
                None => Err(LowerError::UnboundVariable(n.clone())),
            },
            Term::Print(v) => {
                let ghost s0 = *self;
                let id = match self.evaluate(&**v, scope) {
                    Ok(x) => x,
                    Err(e) => {
                        return Err(e);
                    },
                };
                let ghost s1 = *self;
                self.push_print(id);
                proof {
                    State::lemma_extends_trans(s0, s1, *self);
                    State::lemma_fresh_trans(s0, s1, *self);
                }
                let o = match &**v {
                    Term::Int(x) => Operand::LitInt(*x),
                    Term::Str(s) => Operand::LitStr(s.clone()),
                    Term::Bool(b) => Operand::LitBool(*b),
                    _ => Operand::Ref(id),
                };
                Ok(o)
            },
            Term::Binary { op: _, lhs: _, rhs: _ } => {
                let id = match self.evaluate(term, scope) {
                    Ok(x) => x,
                    Err(e) => {
                        return Err(e);
                    },
                };
                let folded = match self.const_lookup(id) {
                    Some(e) => match e {
                        ConstEntry::Int(x) => Operand::LitInt(*x),
                        ConstEntry::Str(s) => Operand::LitStr(s.clone()),
                        ConstEntry::Bool(b) => Operand::LitBool(*b),
                        _ => Operand::Ref(id),
                    },
                    None => Operand::Ref(id),
                };
                Ok(folded)
            },
            _ => Err(LowerError::TypeMismatch { kind: term_kind_of(term), op: None }),
        }
    }

    /// Lower `First` (index 0) or `Second` (index 1) of `value`, whose own
    /// slot `dst` is already reserved.  A literal tuple folds: only the
    /// selected component is lowered, with no deferred instruction.  A
    /// variable becomes exactly one deferred field-access instruction.
    fn eval_field(&mut self, value: &Term, scope: u64, index: u8, dst: u64) -> (r: Result<
        u64,
        LowerError,
    >)
        requires
            old(self).wf(),
            scope <= old(self).it,
            dst == old(self).it,
            1 <= dst,
            old(self).it + slots_bound(*value) <= u64::MAX,
            forall|i: int|
                0 <= i < old(self).constants@.len() ==> (#[trigger] old(self).constants@[i]).0
                    != dst,
            forall|i: int|
                0 <= i < old(self).types@.len() ==> (#[trigger] old(self).types@[i]).0 != dst,
        ensures
            final(self).wf(),
            State::extends(*old(self), *final(self)),
            forall|i: int|
                old(self).constants@.len() <= i < final(self).constants@.len() ==> ((
                #[trigger] final(self).constants@[i]).0 == dst || final(self).constants@[i].0 > old(self).it),
            forall|i: int|
                old(self).types@.len() <= i < final(self).types@.len() ==> ((
                #[trigger] final(self).types@[i]).0 == dst || final(self).types@[i].0 > old(self).it),
            old(self).it <= final(self).it,
            final(self).it <= old(self).it + slots_bound(*value),
            r matches Ok(id) ==> 1 <= id <= final(self).it && final(self).slot_defined(id),
            *value matches Term::Tuple { first, second } ==> (match lit_view(
                if index == 0 {
                    *first
                } else {
                    *second
                },
            ) {
                Some(cv) => r matches Ok(id) && id == old(self).it + 1 && final(self).it == old(self).it + 1 && final(self).const_view_at(id) == Some(cv) && final(self).tag_at(id)
                    == Some(view_tag(cv)) && final(self).evaluation_queue@ == old(self).evaluation_queue@ && final(self).print_queue@ == old(self).print_queue@,
                None => true,
            }),
            *value matches Term::Var(n) ==> (match old(self).lookup_spec(scope, n@) {
                Some(src0) => r matches Ok(id) && id == dst && final(self).it == old(self).it
                    && final(self).const_view_at(dst) == Some(ConstView::Uninit) && final(self).tag_at(dst) == Some(TAG_UNKNOWN) && final(self).queue_at(scope) == old(self).queue_at(scope).push((Instr::TupleGet { dst, src: src0, index })) && (
                forall|sc: u64| sc != scope ==> final(self).queue_at(sc) == old(self).queue_at(sc))
                    && final(self).print_queue@ == old(self).print_queue@,
                None => r matches Err(e) && (e matches LowerError::UnboundVariable(m) && m@ == n@),
            }),
        decreases *value, 3int,
    {
        let ghost s0 = *self;
        match value {
            Term::Tuple { first, second } => {
                let c: &Term = if index == 0 {
                    &**first
                } else {
                    &**second
                };
                self.evaluate(c, scope)
            },
            Term::Var(n) => {
                match self.lookup(scope, n) {
                    Some(src) => {
                        self.record(dst, ConstEntry::Uninit, TAG_UNKNOWN);
                        let ghost s1 = *self;
                        self.push_instr(scope, Instr::TupleGet { dst, src, index });
                        proof {
                            State::lemma_extends_trans(s0, s1, *self);
                        }
                        Ok(dst)
                    },
                    None => Err(LowerError::UnboundVariable(n.clone())),
                }
            },
            Term::Print(pv) => {
                let src = match self.evaluate(&**pv, scope) {
                    Ok(x) => x,
                    Err(e) => {
                        return Err(e);
                    },
                };
                let ghost s1 = *self;
                self.push_print(src);
                let ghost s2 = *self;
                proof {
                    State::lemma_extends_trans(s0, s1, s2);
                    State::lemma_fresh_trans(s0, s1, s2);
                    State::lemma_slot_unrecorded(s0, s2, dst);
                }
                self.record(dst, ConstEntry::Uninit, TAG_UNKNOWN);
                let ghost s3 = *self;
                self.push_instr(scope, Instr::TupleGet { dst, src, index });
                proof {
                    State::lemma_extends_trans(s0, s2, s3);
                    State::lemma_extends_trans(s0, s3, *self);
                }
                Ok(dst)
            },
            _ => self.evaluate(value, scope),
        }
    }

    /// Lower one node: reserve a fresh slot, then dispatch on the node
    /// kind.  This is the core primitive of the pass; on success it returns
    /// the slot that holds the node's value.
    pub fn evaluate(&mut self, term: &Term, scope: u64) -> (r: Result<u64, LowerError>)
        requires
            old(self).wf(),
            scope <= old(self).it,
            old(self).it + slots_bound(*term) <= u64::MAX,
        ensures
            final(self).wf(),
            State::extends(*old(self), *final(self)),
            State::records_fresh(*old(self), *final(self)),
            old(self).it < final(self).it,
            final(self).it <= old(self).it + slots_bound(*term),
            r matches Ok(id) ==> 1 <= id <= final(self).it && final(self).slot_defined(id),
            *term matches Term::Int(x) ==> r matches Ok(id) && folds_to(
                *old(self),
                *final(self),
                id,
                ConstView::Int(x),
            ),
            *term matches Term::Str(s) ==> r matches Ok(id) && folds_to(
                *old(self),
                *final(self),
                id,
                ConstView::Str(s@),
            ),
            *term matches Term::Bool(b) ==> r matches Ok(id) && folds_to(
                *old(self),
                *final(self),
                id,
                ConstView::Bool(b),
            ),
            *term matches Term::Var(n) ==> unchanged_but_counter(*old(self), *final(self)) && final(self).it == old(self).it + 1 && (match old(self).lookup_spec(scope, n@) {
                Some(id) => r matches Ok(i) && i == id,
                None => r matches Err(e) && (e matches LowerError::UnboundVariable(m) && m@ == n@),
            }),
            *term matches Term::Print(_) ==> (r matches Ok(id) ==> final(self).print_queue@.len()
                >= old(self).print_queue@.len() + 1 && final(self).print_queue@.last() == id),
            *term matches Term::Print(v) ==> (match lit_view(*v) {
                Some(cv) => r matches Ok(id) && id == old(self).it + 2 && final(self).it == old(self).it + 2 && final(self).const_view_at(((old(self).it + 2) as u64)) == Some(cv)
                    && final(self).tag_at(((old(self).it + 2) as u64)) == Some(view_tag(cv))
                    && final(self).constants@.len() == old(self).constants@.len() + 1 && final(self).print_queue@ == old(self).print_queue@.push(((old(self).it + 2) as u64))
                    && final(self).evaluation_queue@ == old(self).evaluation_queue@ && final(self).scoped_variables@ == old(self).scoped_variables@,
                None => true,
            }),
            *term matches Term::Print(v) ==> (match *v {
                Term::Var(n) => (match old(self).lookup_spec(scope, n@) {
                    Some(id0) => r matches Ok(i) && i == id0 && final(self).it == old(self).it + 2
                        && final(self).print_queue@ == old(self).print_queue@.push(id0) && final(self).constants@ == old(self).constants@ && final(self).types@ == old(self).types@
                        && final(self).evaluation_queue@ == old(self).evaluation_queue@ && final(self).scoped_variables@ == old(self).scoped_variables@,
                    None => r matches Err(e) && (e matches LowerError::UnboundVariable(m) && m@
                        == n@),
                }),
                Term::Binary { op, lhs, rhs } => (match (
                    term_operand(*old(self), scope, *lhs),
                    term_operand(*old(self), scope, *rhs),
                ) {
                    (Some(a), Some(b)) => (match spec_combine(op, a, b) {
                        CombineSpec::Folded(cv) => r matches Ok(id) && id == old(self).it + 2
                            && final(self).it == old(self).it + 2 && final(self).const_view_at(
                            ((old(self).it + 2) as u64),
                        ) == Some(cv) && final(self).constants@.len() == old(self).constants@.len()
                            + 1 && final(self).print_queue@ == old(self).print_queue@.push(
                            ((old(self).it + 2) as u64),
                        ) && final(self).evaluation_queue@ == old(self).evaluation_queue@,
                        CombineSpec::Deferred(k) => r matches Ok(id) && id == old(self).it + 2
                            && final(self).print_queue@ == old(self).print_queue@.push(
                            ((old(self).it + 2) as u64),
                        ) && final(self).const_view_at(((old(self).it + 2) as u64)) == Some(
                            defer_placeholder(k),
                        ),
                        CombineSpec::Fail(e0) => r matches Err(e2) && e2 == e0,
                    }),
                    _ => true,
                }),
                _ => true,
            }),
            *term matches Term::Binary { op, lhs, rhs } ==> (match (
                term_operand(*old(self), scope, *lhs),
                term_operand(*old(self), scope, *rhs),
            ) {
                (Some(a), Some(b)) => combine_post(*old(self), *final(self), scope, r, op, a, b),
                _ => true,
            }),
            *term matches Term::Binary { op, lhs, rhs } ==> (((op == BinaryOp::And || op
                == BinaryOp::Or) && !(*lhs is Bool && *rhs is Bool)) ==> ((r matches Err(e) && e
                == (LowerError::TypeMismatch { kind: TermKind::Binary, op: Some(op) }))
                && unchanged_but_counter(
                *old(self),
                *final(self),
            ) && final(self).it == old(self).it + 1)),
            *term matches Term::Binary { op, lhs, rhs } ==> (match *lhs {
                Term::Var(n) => (op != BinaryOp::And && op != BinaryOp::Or && old(self).lookup_spec(scope, n@) is None) ==> (r matches Err(e) && (
                e matches LowerError::UnboundVariable(m) && m@ == n@)),
                _ => true,
            }),
            *term matches Term::Binary { op, lhs, rhs } ==> (match *rhs {
                Term::Var(n) => (op != BinaryOp::And && op != BinaryOp::Or && term_operand(
                    *old(self),
                    scope,
                    *lhs,
                ) is Some && old(self).lookup_spec(scope, n@) is None) ==> (r matches Err(e) && (
                e matches LowerError::UnboundVariable(m) && m@ == n@)),
                _ => true,
            }),
            *term matches Term::If { condition, then, otherwise } ==> (!(*condition is Bool
                || *condition is Binary || *condition is Print) ==> (r matches Err(e) && e == (
            LowerError::TypeMismatch { kind: term_kind(*condition), op: None }))),
            *term matches Term::Tuple { first, second } ==> (r matches Ok(id) ==> {
                let q = final(self).queue_at(scope);
                &&& id == old(self).it + 1
                &&& final(self).const_view_at(id) == Some(ConstView::TupleInit)
                &&& final(self).tag_at(id) == Some(TAG_TUPLE)
                &&& q.len() >= old(self).queue_at(scope).len() + 2
                &&& q[q.len() - 2] matches Instr::TupleSet { dst, index, src } && dst == id && index
                    == 0
                &&& q[q.len() - 1] matches Instr::TupleSet { dst, index, src } && dst == id && index
                    == 1
            }),

            *term matches Term::First(v) ==> (match *v {
                Term::Tuple { first, second } => (match lit_view(*first) {
                    Some(cv) => r matches Ok(id) && id == old(self).it + 2 && final(self).it == old(self).it + 2 && final(self).const_view_at(id) == Some(cv) && final(self).tag_at(id)
                        == Some(view_tag(cv)) && final(self).evaluation_queue@ == old(self).evaluation_queue@ && final(self).print_queue@ == old(self).print_queue@,
                    None => true,
                }),
                _ => true,
            }),
            *term matches Term::Second(v) ==> (match *v {
                Term::Tuple { first, second } => (match lit_view(*second) {
                    Some(cv) => r matches Ok(id) && id == old(self).it + 2 && final(self).it == old(self).it + 2 && final(self).const_view_at(id) == Some(cv) && final(self).tag_at(id)
                        == Some(view_tag(cv)) && final(self).evaluation_queue@ == old(self).evaluation_queue@ && final(self).print_queue@ == old(self).print_queue@,
                    None => true,
                }),
                _ => true,
            }),
            *term matches Term::First(v) ==> (match *v {
                Term::Var(n) => (match old(self).lookup_spec(scope, n@) {
                Some(src0) => r matches Ok(id) && id == old(self).it + 1 && final(self).it == old(self).it + 1 && final(self).const_view_at(id) == Some(ConstView::Uninit) && final(self).tag_at(id) == Some(TAG_UNKNOWN) && final(self).queue_at(scope) == old(self).queue_at(scope).push(
                    (Instr::TupleGet { dst: ((old(self).it + 1) as u64), src: src0, index: 0 }),
                ) && final(self).print_queue@ == old(self).print_queue@,
                    None => r matches Err(e) && (e matches LowerError::UnboundVariable(m) && m@
                        == n@),
                }),
                _ => true,
            }),
            *term matches Term::Second(v) ==> (match *v {
                Term::Var(n) => (match old(self).lookup_spec(scope, n@) {
                Some(src0) => r matches Ok(id) && id == old(self).it + 1 && final(self).it == old(self).it + 1 && final(self).const_view_at(id) == Some(ConstView::Uninit) && final(self).tag_at(id) == Some(TAG_UNKNOWN) && final(self).queue_at(scope) == old(self).queue_at(scope).push(
                    (Instr::TupleGet { dst: ((old(self).it + 1) as u64), src: src0, index: 1 }),
                ) && final(self).print_queue@ == old(self).print_queue@,
                    None => r matches Err(e) && (e matches LowerError::UnboundVariable(m) && m@
                        == n@),
                }),
                _ => true,
            }),
            *term matches Term::Function { parameters, body } ==> (r matches Ok(id) ==> id == old(self).it + 1 && final(self).functions@.len() > old(self).functions@.len() && final(self).functions@[old(self).functions@.len() as int] == id && final(self).const_view_at(id)
                == Some(ConstView::Uninit) && final(self).tag_at(id) == Some(TAG_UNKNOWN)),
            *term matches Term::Let { name, value, next } ==> ((*value is Function && r is Ok)
                ==> exists|i: int|
                old(self).named_functions@.len() <= i < final(self).named_functions@.len() && (
                #[trigger] final(self).named_functions@[i]).0@ == name@ && final(self).named_functions@[i].1 == old(self).it + 2),
            *term matches Term::Let { name, value, next } ==> (r is Ok ==> exists|i: int|
                old(self).bindings_at(scope).len() <= i < final(self).bindings_at(scope).len() && (
                #[trigger] final(self).bindings_at(scope)[i]).0@ == name@),
            (*term matches Term::Call { .. } || *term matches Term::Error(_)) ==> (
            r matches Err(e) && e == LowerError::UnsupportedConstruct(term_kind(*term)))
                && unchanged_but_counter(
                *old(self),
                *final(self),
            ) && final(self).it == old(self).it + 1,
            *term matches Term::Let { name, value, next } ==> (match lit_view(*value) {
                Some(cv) => {
                    &&& final(self).const_view_at(((old(self).it + 2) as u64)) == Some(cv)
                    &&& final(self).tag_at(((old(self).it + 2) as u64)) == Some(view_tag(cv))
                    &&& final(self).bindings_at(scope).len() > old(self).bindings_at(scope).len()
                    &&& (final(self).bindings_at(scope)[old(self).bindings_at(
                        scope,
                    ).len() as int]).0@ == name@
                    &&& (final(self).bindings_at(scope)[old(self).bindings_at(
                        scope,
                    ).len() as int]).1 == old(self).it + 2
                    &&& (match lit_view(*next) {
                        Some(cv2) => r matches Ok(id) && id == old(self).it + 3 && final(self).it
                            == old(self).it + 3 && final(self).const_view_at(
                            ((old(self).it + 3) as u64),
                        ) == Some(cv2) && final(self).evaluation_queue@ == old(self).evaluation_queue@ && final(self).print_queue@ == old(self).print_queue@,
                        None => true,
                    })
                    &&& (match *next {
                        Term::Print(pv) => (match *pv {
                            Term::Var(m) => m@ == name@ ==> (r matches Ok(id) && id == old(self).it
                                + 2 && final(self).it == old(self).it + 4 && final(self).print_queue@ == old(self).print_queue@.push(((old(self).it + 2) as u64))
                                && final(self).evaluation_queue@ == old(self).evaluation_queue@
                                && final(self).constants@.len() == old(self).constants@.len() + 1),
                            _ => true,
                        }),
                        _ => true,
                    })
                },
                None => true,
            }),
            *term matches Term::If { condition, then, otherwise } ==> (match *condition {
                Term::Bool(bv) => (match lit_view(
                    if bv {
                        *then
                    } else {
                        *otherwise
                    },
                ) {
                    Some(cv) => r matches Ok(id) && id == old(self).it + 2 && final(self).it == old(self).it + 2 && final(self).const_view_at(((old(self).it + 2) as u64)) == Some(cv)
                        && final(self).tag_at(((old(self).it + 2) as u64)) == Some(view_tag(cv))
                        && final(self).constants@.len() == old(self).constants@.len() + 1 && final(self).print_queue@ == old(self).print_queue@ && final(self).evaluation_queue@
                        == old(self).evaluation_queue@,
                    None => true,
                }),
                Term::Binary { op, lhs, rhs } => (match (
                    term_operand(*old(self), scope, *lhs),
                    term_operand(*old(self), scope, *rhs),
                ) {
                    (Some(a), Some(b)) => (match spec_combine(op, a, b) {
                        CombineSpec::Folded(ConstView::Bool(bv)) => (match lit_view(
                            if bv {
                                *then
                            } else {
                                *otherwise
                            },
                        ) {
                            Some(cv) => r matches Ok(id) && id == old(self).it + 3 && final(self).it == old(self).it + 3 && final(self).const_view_at(
                                ((old(self).it + 3) as u64),
                            ) == Some(cv) && final(self).print_queue@ == old(self).print_queue@
                                && final(self).evaluation_queue@ == old(self).evaluation_queue@,
                            None => true,
                        }),
                        CombineSpec::Folded(_) => r matches Err(e) && e == (
                        LowerError::TypeMismatch { kind: TermKind::If, op: None }),
                        CombineSpec::Deferred(DeferKind::Compare) => r matches Err(e) && e
                            == LowerError::UnsupportedConstruct(TermKind::If),
                        CombineSpec::Deferred(_) => r matches Err(e) && e == (
                        LowerError::TypeMismatch { kind: TermKind::If, op: None }),
                        CombineSpec::Fail(e0) => r matches Err(e2) && e2 == e0,
                    }),
                    _ => true,
                }),
                _ => true,
            }),
            *term matches Term::Tuple { first, second } ==> (match (
                lit_view(*first),
                lit_view(*second),
            ) {
                (Some(cv1), Some(cv2)) => r matches Ok(id) && id == old(self).it + 1 && final(self).it == old(self).it + 3 && final(self).const_view_at(((old(self).it + 2) as u64))
                    == Some(cv1) && final(self).const_view_at(((old(self).it + 3) as u64)) == Some(
                    cv2,
                ) && final(self).const_view_at(((old(self).it + 1) as u64)) == Some(
                    ConstView::TupleInit,
                ) && final(self).queue_at(scope) == old(self).queue_at(scope).push(
                    (Instr::TupleSet {
                        dst: ((old(self).it + 1) as u64),
                        index: 0,
                        src: ((old(self).it + 2) as u64),
                    }),
                ).push(
                    (Instr::TupleSet {
                        dst: ((old(self).it + 1) as u64),
                        index: 1,
                        src: ((old(self).it + 3) as u64),
                    }),
                ) && final(self).print_queue@ == old(self).print_queue@ && final(self).constants@.len() == old(self).constants@.len() + 3,
                _ => true,
            }),
            *term matches Term::Function { parameters, body } ==> (r is Ok ==> forall|j: int|
                0 <= j < parameters@.len() ==> final(self).const_view_at(
                    #[trigger] ((old(self).it + 2 + j) as u64),
                ) == Some(ConstView::Uninit) && final(self).tag_at(((old(self).it + 2 + j) as u64))
                    == Some(TAG_UNKNOWN)),
        decreases *term, 2int,
    {
        let ghost s0 = *self;
        proof {
            assert(slots_bound(*term) >= 1);
        }
        match term {
            Term::Int(x) => {
                let s = self.next_slot();
                let ghost s1 = *self;
                self.record(s, ConstEntry::Int(*x), TAG_INT);
                proof {
                    State::lemma_extends_trans(s0, s1, *self);
                }
                Ok(s)
            },
            Term::Str(x) => {
                let s = self.next_slot();
                let ghost s1 = *self;
                self.record(s, ConstEntry::Str(x.clone()), TAG_STRING);
                proof {
                    State::lemma_extends_trans(s0, s1, *self);
                }
                Ok(s)
            },
            Term::Bool(b) => {
                let s = self.next_slot();
                let ghost s1 = *self;
                self.record(s, ConstEntry::Bool(*b), TAG_BOOLEAN);
                proof {
                    State::lemma_extends_trans(s0, s1, *self);
                }
                Ok(s)
            },
            Term::Var(n) => {
                let _s = self.next_slot();
                match self.lookup(scope, n) {
                    Some(id) => {
                        proof {
                            crate::state::lemma_find_slot_in(self.constants@, id);
                        }
                        Ok(id)
                    },
                    None => Err(LowerError::UnboundVariable(n.clone())),
                }
            },
            Term::Binary { .. } => self.eval_binary(term, scope),
            Term::Let { .. } => self.eval_let(term, scope),
            Term::If { .. } => self.eval_if(term, scope),
            Term::Print(v) => {
                let _s = self.next_slot();
                let ghost s1 = *self;
                let id = match self.evaluate(&**v, scope) {
                    Ok(x) => x,
                    Err(e) => {
                        proof {
                            State::lemma_extends_trans(s0, s1, *self);
                            State::lemma_fresh_trans(s0, s1, *self);
                        }
                        return Err(e);
                    },
                };
                let ghost s2 = *self;
                self.push_print(id);
                proof {
                    State::lemma_extends_trans(s1, s2, *self);
                    State::lemma_fresh_trans(s1, s2, *self);
                    State::lemma_extends_trans(s0, s1, *self);
                    State::lemma_fresh_trans(s0, s1, *self);
                }
                Ok(id)
            },
            Term::Tuple { .. } => self.eval_tuple(term, scope),
            Term::First(v) => {
                let s = self.next_slot();
                let ghost s1 = *self;
                let res = self.eval_field(&**v, scope, 0, s);
                proof {
                    State::lemma_extends_trans(s0, s1, *self);
                    assert forall|i: int|
                        s0.constants@.len() <= i < self.constants@.len() implies (
                    #[trigger] self.constants@[i]).0 > s0.it by {}
                    assert forall|i: int|
                        s0.types@.len() <= i < self.types@.len() implies (
                    #[trigger] self.types@[i]).0 > s0.it by {}
                }
                res
            },
            Term::Second(v) => {
                let s = self.next_slot();
                let ghost s1 = *self;
                let res = self.eval_field(&**v, scope, 1, s);
                proof {
                    State::lemma_extends_trans(s0, s1, *self);
                    assert forall|i: int|
                        s0.constants@.len() <= i < self.constants@.len() implies (
                    #[trigger] self.constants@[i]).0 > s0.it by {}
                    assert forall|i: int|
                        s0.types@.len() <= i < self.types@.len() implies (
                    #[trigger] self.types@[i]).0 > s0.it by {}
                }
                res
            },
            Term::Function { .. } => self.eval_function(term, scope),
            Term::Call { .. } => {
                let _s = self.next_slot();
                Err(LowerError::UnsupportedConstruct(TermKind::Call))
            },
            Term::Error(_) => {
                let _s = self.next_slot();
                Err(LowerError::UnsupportedConstruct(TermKind::Error))
            },
        }
    }


    /// Lower a binary expression: fold both operands, then fold, defer or
    /// reject per the folding matrix.
    fn eval_binary(&mut self, term: &Term, scope: u64) -> (r: Result<u64, LowerError>)
        requires
            old(self).wf(),
            scope <= old(self).it,
            old(self).it + slots_bound(*term) <= u64::MAX,
            *term matches Term::Binary { .. },
        ensures
            final(self).wf(),
            State::extends(*old(self), *final(self)),
            State::records_fresh(*old(self), *final(self)),
            old(self).it < final(self).it,
            final(self).it <= old(self).it + slots_bound(*term),
            r matches Ok(id) ==> 1 <= id <= final(self).it && final(self).slot_defined(id),
            *term matches Term::Binary { op, lhs, rhs } ==> (match (
                term_operand(*old(self), scope, *lhs),
                term_operand(*old(self), scope, *rhs),
            ) {
                (Some(a), Some(b)) => combine_post(*old(self), *final(self), scope, r, op, a, b),
                _ => true,
            }),
            *term matches Term::Binary { op, lhs, rhs } ==> (((op == BinaryOp::And || op
                == BinaryOp::Or) && !(*lhs is Bool && *rhs is Bool)) ==> ((r matches Err(e) && e
                == (LowerError::TypeMismatch { kind: TermKind::Binary, op: Some(op) }))
                && unchanged_but_counter(
                *old(self),
                *final(self),
            ) && final(self).it == old(self).it + 1)),
            *term matches Term::Binary { op, lhs, rhs } ==> (match *lhs {
                Term::Var(n) => (op != BinaryOp::And && op != BinaryOp::Or && old(self).lookup_spec(scope, n@) is None) ==> (r matches Err(e) && (
                e matches LowerError::UnboundVariable(m) && m@ == n@)),
                _ => true,
            }),
            *term matches Term::Binary { op, lhs, rhs } ==> (match *rhs {
                Term::Var(n) => (op != BinaryOp::And && op != BinaryOp::Or && term_operand(
                    *old(self),
                    scope,
                    *lhs,
                ) is Some && old(self).lookup_spec(scope, n@) is None) ==> (r matches Err(e) && (
                e matches LowerError::UnboundVariable(m) && m@ == n@)),
                _ => true,
            }),
        decreases *term, 1int,
    {
        let ghost s0 = *self;
        proof {
            assert(slots_bound(*term) >= 1);
        }
        let s = self.next_slot();
        let ghost s1 = *self;
        match term {
            Term::Binary { op, lhs, rhs } => {
                let o = *op;
                match o {
                    BinaryOp::And | BinaryOp::Or => {
                        match (&**lhs, &**rhs) {
                            (Term::Bool(x), Term::Bool(y)) => {
                                let v = match o {
                                    BinaryOp::And => *x && *y,
                                    _ => *x || *y,
                                };
                                self.record(s, ConstEntry::Bool(v), TAG_BOOLEAN);
                                proof {
                                    State::lemma_extends_trans(s0, s1, *self);
                                }
                                Ok(s)
                            },
                            _ => Err(
                                LowerError::TypeMismatch {
                                    kind: TermKind::Binary,
                                    op: Some(o),
                                },
                            ),
                        }
                    },
                    _ => {
                        let a = match self.fold_operand(&**lhs, scope) {
                            Ok(x) => x,
                            Err(e) => {
                                proof {
                                    State::lemma_extends_trans(s0, s1, *self);
                                    State::lemma_fresh_trans(s0, s1, *self);
                                }
                                return Err(e);
                            },
                        };
                        let ghost s2 = *self;
                        let b = match self.fold_operand(&**rhs, scope) {
                            Ok(x) => x,
                            Err(e) => {
                                proof {
                                    State::lemma_extends_trans(s1, s2, *self);
                                    State::lemma_fresh_trans(s1, s2, *self);
                                    State::lemma_extends_trans(s0, s1, *self);
                                    State::lemma_fresh_trans(s0, s1, *self);
                                }
                                return Err(e);
                            },
                        };
                        let ghost s3 = *self;
                        proof {
                            State::lemma_extends_trans(s1, s2, s3);
                            State::lemma_fresh_trans(s1, s2, s3);
                            State::lemma_extends_trans(s0, s1, s3);
                            State::lemma_fresh_trans(s0, s1, s3);
                            State::lemma_slot_unrecorded(s1, s3, s);
                        }
                        let res = self.binary_dispatch(o, a, b, scope, s);
                        proof {
                            State::lemma_extends_trans(s0, s3, *self);
                            assert forall|i: int|
                                s0.constants@.len() <= i < self.constants@.len() implies (
                            #[trigger] self.constants@[i]).0 > s0.it by {
                                if i < s3.constants@.len() {
                                    assert(self.constants@[i] == s3.constants@[i]);
                                }
                            }
                            assert forall|i: int|
                                s0.types@.len() <= i < self.types@.len() implies (
                            #[trigger] self.types@[i]).0 > s0.it by {
                                if i < s3.types@.len() {
                                    assert(self.types@[i] == s3.types@[i]);
                                }
                            }
                        }
                        res
                    },
                }
            },
            _ => {
                proof {
                    assert(false);
                }
                Err(LowerError::TypeMismatch { kind: TermKind::Binary, op: None })
            },
        }
    }

    /// Lower a let binding: lower the bound value, bind the name (and, for a
    /// function value, register it by name), then lower the body of the let.
    fn eval_let(&mut self, term: &Term, scope: u64) -> (r: Result<u64, LowerError>)
        requires
            old(self).wf(),
            scope <= old(self).it,
            old(self).it + slots_bound(*term) <= u64::MAX,
            *term matches Term::Let { .. },
        ensures
            final(self).wf(),
            State::extends(*old(self), *final(self)),
            State::records_fresh(*old(self), *final(self)),
            old(self).it < final(self).it,
            final(self).it <= old(self).it + slots_bound(*term),
            r matches Ok(id) ==> 1 <= id <= final(self).it && final(self).slot_defined(id),
            *term matches Term::Let { name, value, next } ==> ((*value is Function && r is Ok)
                ==> exists|i: int|
                old(self).named_functions@.len() <= i < final(self).named_functions@.len() && (
                #[trigger] final(self).named_functions@[i]).0@ == name@ && final(self).named_functions@[i].1 == old(self).it + 2),
            *term matches Term::Let { name, value, next } ==> (r is Ok ==> exists|i: int|
                old(self).bindings_at(scope).len() <= i < final(self).bindings_at(scope).len() && (
                #[trigger] final(self).bindings_at(scope)[i]).0@ == name@),
            *term matches Term::Let { name, value, next } ==> (match lit_view(*value) {
                Some(cv) => {
                    &&& final(self).const_view_at(((old(self).it + 2) as u64)) == Some(cv)
                    &&& final(self).tag_at(((old(self).it + 2) as u64)) == Some(view_tag(cv))
                    &&& final(self).bindings_at(scope).len() > old(self).bindings_at(scope).len()
                    &&& (final(self).bindings_at(scope)[old(self).bindings_at(
                        scope,
                    ).len() as int]).0@ == name@
                    &&& (final(self).bindings_at(scope)[old(self).bindings_at(
                        scope,
                    ).len() as int]).1 == old(self).it + 2
                    &&& (match lit_view(*next) {
                        Some(cv2) => r matches Ok(id) && id == old(self).it + 3 && final(self).it
                            == old(self).it + 3 && final(self).const_view_at(
                            ((old(self).it + 3) as u64),
                        ) == Some(cv2) && final(self).evaluation_queue@ == old(self).evaluation_queue@ && final(self).print_queue@ == old(self).print_queue@,
                        None => true,
                    })
                    &&& (match *next {
                        Term::Print(pv) => (match *pv {
                            Term::Var(m) => m@ == name@ ==> (r matches Ok(id) && id == old(self).it
                                + 2 && final(self).it == old(self).it + 4 && final(self).print_queue@ == old(self).print_queue@.push(((old(self).it + 2) as u64))
                                && final(self).evaluation_queue@ == old(self).evaluation_queue@
                                && final(self).constants@.len() == old(self).constants@.len() + 1),
                            _ => true,
                        }),
                        _ => true,
                    })
                },
                None => true,
            }),
        decreases *term, 1int,
    {
        let ghost s0 = *self;
        proof {
            assert(slots_bound(*term) >= 1);
        }
        let _s = self.next_slot();
        let ghost s1 = *self;
        match term {
            Term::Let { name, value, next } => {
                let v = match self.evaluate(&**value, scope) {
                    Ok(x) => x,
                    Err(e) => {
                        proof {
                            State::lemma_extends_trans(s0, s1, *self);
                            State::lemma_fresh_trans(s0, s1, *self);
                        }
                        return Err(e);
                    },
                };
                let ghost s2 = *self;
                let is_function = matches!(&**value, Term::Function { .. });
                if is_function {
                    self.push_named(name.clone(), v);
                }
                let ghost s3 = *self;
                self.bind(scope, name.clone(), v);
                let ghost s4 = *self;
                proof {
                    State::lemma_extends_trans(s2, s3, s4);
                    State::lemma_fresh_trans(s2, s3, s4);
                    State::lemma_extends_trans(s1, s2, s4);
                    State::lemma_fresh_trans(s1, s2, s4);
                    State::lemma_extends_trans(s0, s1, s4);
                    State::lemma_fresh_trans(s0, s1, s4);
                }
                match self.evaluate(&**next, scope) {
                    Ok(x) => {
                        proof {
                            State::lemma_extends_trans(s0, s4, *self);
                            State::lemma_fresh_trans(s0, s4, *self);
                            let bi = s3.bindings_at(scope).len() as int;
                            assert(s4.bindings_at(scope)[bi].0@ == name@);
                            assert(self.bindings_at(scope)[bi].0@ == name@);
                            if is_function {
                                let ni = s2.named_functions@.len() as int;
                                assert(s3.named_functions@[ni].0@ == name@);
                                assert(self.named_functions@[ni].0@ == name@);
                                assert(self.named_functions@[ni].1 == v);
                            }
                        }
                        Ok(x)
                    },
                    Err(e) => {
                        proof {
                            State::lemma_extends_trans(s0, s4, *self);
                            State::lemma_fresh_trans(s0, s4, *self);
                        }
                        Err(e)
                    },
                }
            },
            _ => {
                proof {
                    assert(false);
                }
                Err(LowerError::TypeMismatch { kind: TermKind::Binary, op: None })
            },
        }
    }

    /// Lower a conditional.  The condition must be statically known: a
    /// literal boolean, or an expression that folds to one; a genuinely
    /// runtime condition is rejected, since the engine never emits a branch.
    fn eval_if(&mut self, term: &Term, scope: u64) -> (r: Result<u64, LowerError>)
        requires
            old(self).wf(),
            scope <= old(self).it,
            old(self).it + slots_bound(*term) <= u64::MAX,
            *term matches Term::If { .. },
        ensures
            final(self).wf(),
            State::extends(*old(self), *final(self)),
            State::records_fresh(*old(self), *final(self)),
            old(self).it < final(self).it,
            final(self).it <= old(self).it + slots_bound(*term),
            r matches Ok(id) ==> 1 <= id <= final(self).it && final(self).slot_defined(id),
            *term matches Term::If { condition, then, otherwise } ==> (!(*condition is Bool
                || *condition is Binary || *condition is Print) ==> (r matches Err(e) && e == (
            LowerError::TypeMismatch { kind: term_kind(*condition), op: None }))),
            *term matches Term::If { condition, then, otherwise } ==> (match *condition {
                Term::Bool(bv) => (match lit_view(
                    if bv {
                        *then
                    } else {
                        *otherwise
                    },
                ) {
                    Some(cv) => r matches Ok(id) && id == old(self).it + 2 && final(self).it == old(self).it + 2 && final(self).const_view_at(((old(self).it + 2) as u64)) == Some(cv)
                        && final(self).tag_at(((old(self).it + 2) as u64)) == Some(view_tag(cv))
                        && final(self).constants@.len() == old(self).constants@.len() + 1 && final(self).print_queue@ == old(self).print_queue@ && final(self).evaluation_queue@
                        == old(self).evaluation_queue@,
                    None => true,
                }),
                Term::Binary { op, lhs, rhs } => (match (
                    term_operand(*old(self), scope, *lhs),
                    term_operand(*old(self), scope, *rhs),
                ) {
                    (Some(a), Some(b)) => (match spec_combine(op, a, b) {
                        CombineSpec::Folded(ConstView::Bool(bv)) => (match lit_view(
                            if bv {
                                *then
                            } else {
                                *otherwise
                            },
                        ) {
                            Some(cv) => r matches Ok(id) && id == old(self).it + 3 && final(self).it == old(self).it + 3 && final(self).const_view_at(
                                ((old(self).it + 3) as u64),
                            ) == Some(cv) && final(self).print_queue@ == old(self).print_queue@
                                && final(self).evaluation_queue@ == old(self).evaluation_queue@,
                            None => true,
                        }),
                        CombineSpec::Folded(_) => r matches Err(e) && e == (
                        LowerError::TypeMismatch { kind: TermKind::If, op: None }),
                        CombineSpec::Deferred(DeferKind::Compare) => r matches Err(e) && e
                            == LowerError::UnsupportedConstruct(TermKind::If),
                        CombineSpec::Deferred(_) => r matches Err(e) && e == (
                        LowerError::TypeMismatch { kind: TermKind::If, op: None }),
                        CombineSpec::Fail(e0) => r matches Err(e2) && e2 == e0,
                    }),
                    _ => true,
                }),
                _ => true,
            }),
        decreases *term, 1int,
    {
        let ghost s0 = *self;
        proof {
            assert(slots_bound(*term) >= 1);
        }
        let _s = self.next_slot();
        let ghost s1 = *self;
        match term {
            Term::If { condition, then, otherwise } => {
                match &**condition {
                    Term::Bool(bv) => {
                        let res = if *bv {
                            self.evaluate(&**then, scope)
                        } else {
                            self.evaluate(&**otherwise, scope)
                        };
                        proof {
                            State::lemma_extends_trans(s0, s1, *self);
                            State::lemma_fresh_trans(s0, s1, *self);
                        }
                        res
                    },
                    Term::Binary { .. } | Term::Print(_) => {
                        let cid = match self.evaluate(&**condition, scope) {
                            Ok(x) => x,
                            Err(e) => {
                                proof {
                                    State::lemma_extends_trans(s0, s1, *self);
                                    State::lemma_fresh_trans(s0, s1, *self);
                                }
                                return Err(e);
                            },
                        };
                        let ghost s2 = *self;
                        proof {
                            State::lemma_extends_trans(s0, s1, s2);
                            State::lemma_fresh_trans(s0, s1, s2);
                        }
                        let bv = match self.const_lookup(cid) {
                            Some(e) => match e {
                                ConstEntry::Bool(b) => *b,
                                ConstEntry::UninitBool => {
                                    return Err(LowerError::UnsupportedConstruct(TermKind::If));
                                },
                                _ => {
                                    return Err(
                                        LowerError::TypeMismatch { kind: TermKind::If, op: None },
                                    );
                                },
                            },
                            None => {
                                return Err(
                                    LowerError::TypeMismatch { kind: TermKind::If, op: None },
                                );
                            },
                        };
                        let res = if bv {
                            self.evaluate(&**then, scope)
                        } else {
                            self.evaluate(&**otherwise, scope)
                        };
                        proof {
                            State::lemma_extends_trans(s0, s2, *self);
                            State::lemma_fresh_trans(s0, s2, *self);
                        }
                        res
                    },
                    _ => Err(
                        LowerError::TypeMismatch {
                            kind: term_kind_of(&**condition),
                            op: None,
                        },
                    ),
                }
            },
            _ => {
                proof {
                    assert(false);
                }
                Err(LowerError::TypeMismatch { kind: TermKind::Binary, op: None })
            },
        }
    }

    /// Lower a tuple literal: both components, then the tuple slot itself
    /// and the two deferred field-set instructions.
    fn eval_tuple(&mut self, term: &Term, scope: u64) -> (r: Result<u64, LowerError>)
        requires
            old(self).wf(),
            scope <= old(self).it,
            old(self).it + slots_bound(*term) <= u64::MAX,
            *term matches Term::Tuple { .. },
        ensures
            final(self).wf(),
            State::extends(*old(self), *final(self)),
            State::records_fresh(*old(self), *final(self)),
            old(self).it < final(self).it,
            final(self).it <= old(self).it + slots_bound(*term),
            r matches Ok(id) ==> 1 <= id <= final(self).it && final(self).slot_defined(id),
            *term matches Term::Tuple { first, second } ==> (r matches Ok(id) ==> {
                let q = final(self).queue_at(scope);
                &&& id == old(self).it + 1
                &&& final(self).const_view_at(id) == Some(ConstView::TupleInit)
                &&& final(self).tag_at(id) == Some(TAG_TUPLE)
                &&& q.len() >= old(self).queue_at(scope).len() + 2
                &&& q[q.len() - 2] matches Instr::TupleSet { dst, index, src } && dst == id && index
                    == 0
                &&& q[q.len() - 1] matches Instr::TupleSet { dst, index, src } && dst == id && index
                    == 1
            }),
            *term matches Term::Tuple { first, second } ==> (match (
                lit_view(*first),
                lit_view(*second),
            ) {
                (Some(cv1), Some(cv2)) => r matches Ok(id) && id == old(self).it + 1 && final(self).it == old(self).it + 3 && final(self).const_view_at(((old(self).it + 2) as u64))
                    == Some(cv1) && final(self).const_view_at(((old(self).it + 3) as u64)) == Some(
                    cv2,
                ) && final(self).const_view_at(((old(self).it + 1) as u64)) == Some(
                    ConstView::TupleInit,
                ) && final(self).queue_at(scope) == old(self).queue_at(scope).push(
                    (Instr::TupleSet {
                        dst: ((old(self).it + 1) as u64),
                        index: 0,
                        src: ((old(self).it + 2) as u64),
                    }),
                ).push(
                    (Instr::TupleSet {
                        dst: ((old(self).it + 1) as u64),
                        index: 1,
                        src: ((old(self).it + 3) as u64),
                    }),
                ) && final(self).print_queue@ == old(self).print_queue@ && final(self).constants@.len() == old(self).constants@.len() + 3,
                _ => true,
            }),
        decreases *term, 1int,
    {
        let ghost s0 = *self;
        proof {
            assert(slots_bound(*term) >= 1);
        }
        let s = self.next_slot();
        let ghost s1 = *self;
        match term {
            Term::Tuple { first, second } => {
                let ra = match self.evaluate(&**first, scope) {
                    Ok(x) => x,
                    Err(e) => {
                        proof {
                            State::lemma_extends_trans(s0, s1, *self);
                            State::lemma_fresh_trans(s0, s1, *self);
                        }
                        return Err(e);
                    },
                };
                let ghost s2 = *self;
                let rb = match self.evaluate(&**second, scope) {
                    Ok(x) => x,
                    Err(e) => {
                        proof {
                            State::lemma_extends_trans(s1, s2, *self);
                            State::lemma_fresh_trans(s1, s2, *self);
                            State::lemma_extends_trans(s0, s1, *self);
                            State::lemma_fresh_trans(s0, s1, *self);
                        }
                        return Err(e);
                    },
                };
                let ghost s3 = *self;
                proof {
                    State::lemma_extends_trans(s1, s2, s3);
                    State::lemma_fresh_trans(s1, s2, s3);
                    State::lemma_slot_unrecorded(s1, s3, s);
                    assert(s3.slot_defined(ra));
                }
                self.record(s, ConstEntry::TupleInit, TAG_TUPLE);
                let ghost s4 = *self;
                self.push_instr(scope, Instr::TupleSet { dst: s, index: 0, src: ra });
                let ghost s5 = *self;
                self.push_instr(scope, Instr::TupleSet { dst: s, index: 1, src: rb });
                proof {
                    State::lemma_extends_trans(s1, s3, s4);
                    State::lemma_extends_trans(s1, s4, s5);
                    State::lemma_extends_trans(s1, s5, *self);
                    State::lemma_extends_trans(s0, s1, *self);
                    assert forall|i: int|
                        s0.constants@.len() <= i < self.constants@.len() implies (
                    #[trigger] self.constants@[i]).0 > s0.it by {
                        if i < s3.constants@.len() {
                            assert(self.constants@[i] == s3.constants@[i]);
                        } else {
                            assert(self.constants@[i] == s4.constants@[i]);
                        }
                    }
                    assert forall|i: int|
                        s0.types@.len() <= i < self.types@.len() implies (
                    #[trigger] self.types@[i]).0 > s0.it by {
                        if i < s3.types@.len() {
                            assert(self.types@[i] == s3.types@[i]);
                        } else {
                            assert(self.types@[i] == s4.types@[i]);
                        }
                    }
                }
                Ok(s)
            },
            _ => {
                proof {
                    assert(false);
                }
                Err(LowerError::TypeMismatch { kind: TermKind::Binary, op: None })
            },
        }
    }

    /// Lower a function definition: register its entry slot in the function
    /// list, allocate one placeholder slot per parameter, and lower the body
    /// under the function's own scope.
    fn eval_function(&mut self, term: &Term, scope: u64) -> (r: Result<u64, LowerError>)
        requires
            old(self).wf(),
            scope <= old(self).it,
            old(self).it + slots_bound(*term) <= u64::MAX,
            *term matches Term::Function { .. },
        ensures
            final(self).wf(),
            State::extends(*old(self), *final(self)),
            State::records_fresh(*old(self), *final(self)),
            old(self).it < final(self).it,
            final(self).it <= old(self).it + slots_bound(*term),
            r matches Ok(id) ==> 1 <= id <= final(self).it && final(self).slot_defined(id),
            *term matches Term::Function { parameters, body } ==> (r matches Ok(id) ==> id == old(self).it + 1 && final(self).functions@.len() > old(self).functions@.len() && final(self).functions@[old(self).functions@.len() as int] == id && final(self).const_view_at(id)
                == Some(ConstView::Uninit) && final(self).tag_at(id) == Some(TAG_UNKNOWN)),
            *term matches Term::Function { parameters, body } ==> (r is Ok ==> forall|j: int|
                0 <= j < parameters@.len() ==> final(self).const_view_at(
                    #[trigger] ((old(self).it + 2 + j) as u64),
                ) == Some(ConstView::Uninit) && final(self).tag_at(((old(self).it + 2 + j) as u64))
                    == Some(TAG_UNKNOWN)),
        decreases *term, 1int,
    {
        let ghost s0 = *self;
        proof {
            assert(slots_bound(*term) >= 1);
        }
        let s = self.next_slot();
        let ghost s1 = *self;
        match term {
            Term::Function { parameters, body } => {
                self.record(s, ConstEntry::Uninit, TAG_UNKNOWN);
                let ghost s2 = *self;
                self.push_function(s);
                let ghost s3 = *self;
                proof {
                    State::lemma_extends_trans(s1, s2, s3);
                    State::lemma_extends_trans(s0, s1, s3);
                }
                let k = parameters.len();
                let mut j: usize = 0;
                while j < k
                    invariant
                        self.wf(),
                        State::extends(s3, *self),
                        State::records_fresh(s3, *self),
                        self.it == s3.it + j,
                        j <= k,
                        k == parameters@.len(),
                        s3.it + k + slots_bound(**body) <= u64::MAX,
                        s3.it == s0.it + 1,
                        scope <= s3.it,
                        s <= s3.it,
                        forall|jj: int|
                            0 <= jj < j ==> self.const_view_at(
                                #[trigger] ((s0.it + 2 + jj) as u64),
                            ) == Some(ConstView::Uninit) && self.tag_at(((s0.it + 2 + jj) as u64))
                                == Some(TAG_UNKNOWN),
                    decreases k - j,
                {
                    let ghost sl = *self;
                    let m = self.next_slot();
                    let ghost sm = *self;
                    proof {
                        assert(forall|i: int|
                            0 <= i < self.constants@.len() ==> (#[trigger] self.constants@[i]).0
                                != m);
                        assert(forall|i: int|
                            0 <= i < self.types@.len() ==> (#[trigger] self.types@[i]).0 != m);
                    }
                    self.record(m, ConstEntry::Uninit, TAG_UNKNOWN);
                    proof {
                        State::lemma_extends_trans(sl, sm, *self);
                        State::lemma_extends_trans(s3, sl, *self);
                        assert(State::records_fresh(sl, *self));
                        State::lemma_fresh_trans(s3, sl, *self);
                    }
                    j = j + 1;
                }
                let ghost s4 = *self;
                match self.evaluate(&**body, s) {
                    Ok(_) => {},
                    Err(e) => {
                        proof {
                            State::lemma_extends_trans(s3, s4, *self);
                            State::lemma_fresh_trans(s3, s4, *self);
                            State::lemma_extends_trans(s0, s3, *self);
                            assert forall|i: int|
                                s0.constants@.len() <= i < self.constants@.len() implies (
                            #[trigger] self.constants@[i]).0 > s0.it by {
                                if i < s3.constants@.len() {
                                    assert(self.constants@[i] == s3.constants@[i]);
                                }
                            }
                            assert forall|i: int|
                                s0.types@.len() <= i < self.types@.len() implies (
                            #[trigger] self.types@[i]).0 > s0.it by {
                                if i < s3.types@.len() {
                                    assert(self.types@[i] == s3.types@[i]);
                                }
                            }
                        }
                        return Err(e);
                    },
                };
                proof {
                    State::lemma_extends_trans(s3, s4, *self);
                    State::lemma_fresh_trans(s3, s4, *self);
                    State::lemma_extends_trans(s0, s3, *self);
                    assert forall|i: int|
                        s0.constants@.len() <= i < self.constants@.len() implies (
                    #[trigger] self.constants@[i]).0 > s0.it by {
                        if i < s3.constants@.len() {
                            assert(self.constants@[i] == s3.constants@[i]);
                        }
                    }
                    assert forall|i: int|
                        s0.types@.len() <= i < self.types@.len() implies (
                    #[trigger] self.types@[i]).0 > s0.it by {
                        if i < s3.types@.len() {
                            assert(self.types@[i] == s3.types@[i]);
                        }
                    }
                }
                Ok(s)
            },
            _ => {
                proof {
                    assert(false);
                }
                Err(LowerError::TypeMismatch { kind: TermKind::Binary, op: None })
            },
        }
    }


    /// Dispatch one binary operator (not `And`/`Or`) over its two folded
    /// operands, with the result slot `dst` already reserved.
    fn binary_dispatch(
        &mut self,
        o: BinaryOp,
        a: Operand,
        b: Operand,
        scope: u64,
        dst: u64,
    ) -> (r: Result<u64, LowerError>)
        requires
            old(self).wf(),
            scope <= old(self).it,
            o != BinaryOp::And,
            o != BinaryOp::Or,
            1 <= dst <= old(self).it,
            old(self).it < u64::MAX,
            forall|i: int|
                0 <= i < old(self).constants@.len() ==> (#[trigger] old(self).constants@[i]).0
                    != dst,
            forall|i: int|
                0 <= i < old(self).types@.len() ==> (#[trigger] old(self).types@[i]).0 != dst,
            a@ matches OperandV::Ref(x) ==> old(self).slot_defined(x),
            b@ matches OperandV::Ref(y) ==> old(self).slot_defined(y),
        ensures
            final(self).wf(),
            State::extends(*old(self), *final(self)),
            disp_rel(*old(self), o, a@, b@, scope, dst, *final(self), r),
            final(self).it <= old(self).it + 1,
            old(self).it <= final(self).it,
            r matches Ok(id) ==> 1 <= id <= final(self).it && final(self).slot_defined(id),
            forall|i: int|
                old(self).constants@.len() <= i < final(self).constants@.len() ==> ((
                #[trigger] final(self).constants@[i]).0 == dst || final(self).constants@[i].0 > old(self).it),
            forall|i: int|
                old(self).types@.len() <= i < final(self).types@.len() ==> ((
                #[trigger] final(self).types@[i]).0 == dst || final(self).types@[i].0 > old(self).it),
            dst == old(self).it ==> (match spec_combine(o, a@, b@) {
                CombineSpec::Folded(v) => r matches Ok(id) && id == dst && final(self).it == old(self).it && final(self).const_view_at(dst) == Some(v) && final(self).tag_at(dst)
                    == Some(view_tag(v)) && final(self).constants@.len() == old(self).constants@.len() + 1 && final(self).types@.len() == old(self).types@.len() + 1
                    && final(self).print_queue@ == old(self).print_queue@ && final(self).functions@
                    == old(self).functions@ && final(self).named_functions@ == old(self).named_functions@ && final(self).scoped_variables@ == old(self).scoped_variables@
                    && final(self).evaluation_queue@ == old(self).evaluation_queue@ && final(self).runtime_queue@ == old(self).runtime_queue@,
                CombineSpec::Deferred(k) => r matches Ok(id) && id == dst && final(self).const_view_at(dst) == Some(defer_placeholder(k)) && final(self).tag_at(dst)
                    == Some(view_tag(defer_placeholder(k))) && final(self).queue_at(scope) == old(self).queue_at(scope).push(
                    defer_instr(
                        o,
                        k,
                        dst,
                        arg_of(a@, ((old(self).it + 1) as u64)),
                        arg_of(b@, ((old(self).it + 1) as u64)),
                    ),
                ) && (forall|sc: u64|
                    sc != scope ==> final(self).queue_at(sc) == old(self).queue_at(sc)) && final(self).print_queue@ == old(self).print_queue@ && final(self).functions@ == old(self).functions@ && final(self).named_functions@ == old(self).named_functions@ && final(self).scoped_variables@ == old(self).scoped_variables@ && final(self).runtime_queue@
                    == old(self).runtime_queue@ && (match (a@, b@) {
                    (OperandV::Ref(_), OperandV::Ref(_)) => final(self).it == old(self).it && final(self).constants@.len() == old(self).constants@.len() + 1 && final(self).types@.len()
                        == old(self).types@.len() + 1,
                    (OperandV::Ref(_), _) => final(self).it == old(self).it + 1 && final(self).const_view_at(((old(self).it + 1) as u64)) == Some(lit_const_view(b@))
                        && final(self).tag_at(((old(self).it + 1) as u64)) == Some(
                        view_tag(lit_const_view(b@)),
                    ),
                    (_, OperandV::Ref(_)) => final(self).it == old(self).it + 1 && final(self).const_view_at(((old(self).it + 1) as u64)) == Some(lit_const_view(a@))
                        && final(self).tag_at(((old(self).it + 1) as u64)) == Some(
                        view_tag(lit_const_view(a@)),
                    ),
                    _ => false,
                }),
                CombineSpec::Fail(e) => r matches Err(e2) && e2 == e && final(self).it == old(self).it && unchanged_but_counter(*old(self), *final(self)),
            }),
    {
        match o {
            BinaryOp::Add => match (&a, &b) {
                (Operand::LitInt(x), Operand::LitInt(y)) => {
                    let v = x.wrapping_add(*y);
                    self.record(dst, ConstEntry::Int(v), TAG_INT);
                    Ok(dst)
                },
                (Operand::LitStr(p), Operand::LitStr(q)) => {
                    let v = p.clone().concat(q.as_str());
                    self.record(dst, ConstEntry::Str(v), TAG_STRING);
                    Ok(dst)
                },
                (Operand::Ref(_), Operand::LitInt(_))
                | (Operand::LitInt(_), Operand::Ref(_))
                | (Operand::Ref(_), Operand::LitStr(_))
                | (Operand::LitStr(_), Operand::Ref(_))
                | (Operand::Ref(_), Operand::Ref(_)) => {
                    self.emit_deferred(dst, o, DeferKind::Concat, &a, &b, scope);
                    Ok(dst)
                },
                _ => Err(LowerError::TypeMismatch { kind: TermKind::Binary, op: Some(o) }),
            },
            BinaryOp::Sub | BinaryOp::Mul | BinaryOp::Div | BinaryOp::Rem => match (&a, &b) {
                (Operand::LitInt(x), Operand::LitInt(y)) => {
                    let v = match o {
                        BinaryOp::Sub => x.wrapping_sub(*y),
                        BinaryOp::Mul => x.wrapping_mul(*y),
                        _ => {
                            if *y == 0 {
                                return Err(LowerError::DivisionByZero(o));
                            }
                            let d = if matches!(o, BinaryOp::Div) {
                                match x.checked_div(*y) {
                                    Some(q) => q,
                                    None => i64::MIN,
                                }
                            } else {
                                match x.checked_rem(*y) {
                                    Some(q) => q,
                                    None => 0,
                                }
                            };
                            d
                        },
                    };
                    self.record(dst, ConstEntry::Int(v), TAG_INT);
                    Ok(dst)
                },
                (Operand::Ref(_), Operand::LitInt(_))
                | (Operand::LitInt(_), Operand::Ref(_))
                | (Operand::Ref(_), Operand::Ref(_)) => {
                    self.emit_deferred(dst, o, DeferKind::Arith, &a, &b, scope);
                    Ok(dst)
                },
                _ => Err(LowerError::TypeMismatch { kind: TermKind::Binary, op: Some(o) }),
            },
            BinaryOp::Lt | BinaryOp::Gt | BinaryOp::Lte | BinaryOp::Gte => match (&a, &b) {
                (Operand::LitInt(x), Operand::LitInt(y)) => {
                    let v = match o {
                        BinaryOp::Lt => *x < *y,
                        BinaryOp::Gt => *x > *y,
                        BinaryOp::Lte => *x <= *y,
                        _ => *x >= *y,
                    };
                    self.record(dst, ConstEntry::Bool(v), TAG_BOOLEAN);
                    Ok(dst)
                },
                (Operand::Ref(_), Operand::LitInt(_))
                | (Operand::LitInt(_), Operand::Ref(_))
                | (Operand::Ref(_), Operand::LitStr(_))
                | (Operand::LitStr(_), Operand::Ref(_))
                | (Operand::Ref(_), Operand::Ref(_)) => {
                    self.emit_deferred(dst, o, DeferKind::Compare, &a, &b, scope);
                    Ok(dst)
                },
                _ => Err(LowerError::TypeMismatch { kind: TermKind::Binary, op: Some(o) }),
            },
            BinaryOp::Eq | BinaryOp::Neq => match (&a, &b) {
                (Operand::LitInt(x), Operand::LitInt(y)) => {
                    let eq = *x == *y;
                    let v = if matches!(o, BinaryOp::Eq) {
                        eq
                    } else {
                        !eq
                    };
                    self.record(dst, ConstEntry::Bool(v), TAG_BOOLEAN);
                    Ok(dst)
                },
                (Operand::LitStr(p), Operand::LitStr(q)) => {
                    let eq = p.eq(q);
                    let v = if matches!(o, BinaryOp::Eq) {
                        eq
                    } else {
                        !eq
                    };
                    self.record(dst, ConstEntry::Bool(v), TAG_BOOLEAN);
                    Ok(dst)
                },
                (Operand::LitBool(x), Operand::LitBool(y)) => {
                    let eq = *x == *y;
                    let v = if matches!(o, BinaryOp::Eq) {
                        eq
                    } else {
                        !eq
                    };
                    self.record(dst, ConstEntry::Bool(v), TAG_BOOLEAN);
                    Ok(dst)
                },
                (Operand::Ref(_), Operand::LitInt(_))
                | (Operand::LitInt(_), Operand::Ref(_))
                | (Operand::Ref(_), Operand::LitStr(_))
                | (Operand::LitStr(_), Operand::Ref(_))
                | (Operand::Ref(_), Operand::Ref(_)) => {
                    self.emit_deferred(dst, o, DeferKind::Compare, &a, &b, scope);
                    Ok(dst)
                },
                _ => Err(LowerError::TypeMismatch { kind: TermKind::Binary, op: Some(o) }),
            },
            BinaryOp::And | BinaryOp::Or => {
                proof {
                    assert(false);
                }
                Err(LowerError::TypeMismatch { kind: TermKind::Binary, op: Some(o) })
            },
        }
    }

    /// Run one whole lowering pass over `source` at the global scope.
    #[verifier::rlimit(100)]
    pub fn generate(&mut self, source: &Term) -> (r: Result<(), LowerError>)
        requires
            old(self).wf(),
            old(self).it + slots_bound(*source) <= u64::MAX,
        ensures
            final(self).wf(),
            State::extends(*old(self), *final(self)),
            State::records_fresh(*old(self), *final(self)),
            final(self).it <= old(self).it + slots_bound(*source),
            *source matches Term::Int(x) ==> r is Ok && folds_to(
                *old(self),
                *final(self),
                ((old(self).it + 1) as u64),
                ConstView::Int(x),
            ),
            *source matches Term::Str(s) ==> r is Ok && folds_to(
                *old(self),
                *final(self),
                ((old(self).it + 1) as u64),
                ConstView::Str(s@),
            ),
            *source matches Term::Bool(b) ==> r is Ok && folds_to(
                *old(self),
                *final(self),
                ((old(self).it + 1) as u64),
                ConstView::Bool(b),
            ),
            *source matches Term::Print(_) ==> (r is Ok ==> final(self).print_queue@.len() >= old(self).print_queue@.len() + 1),
            *source matches Term::Var(n) ==> (match old(self).lookup_spec(SCOPE_MAIN, n@) {
                Some(_) => r is Ok,
                None => r matches Err(e) && (e matches LowerError::UnboundVariable(m) && m@ == n@),
            }),
            *source matches Term::Print(v) ==> (match lit_view(*v) {
                Some(cv) => r is Ok && final(self).it == old(self).it + 2 && final(self).const_view_at(((old(self).it + 2) as u64)) == Some(cv) && final(self).tag_at(
                    ((old(self).it + 2) as u64),
                ) == Some(view_tag(cv)) && final(self).constants@.len() == old(self).constants@.len() + 1 && final(self).print_queue@ == old(self).print_queue@.push(
                    ((old(self).it + 2) as u64),
                ) && final(self).evaluation_queue@ == old(self).evaluation_queue@,
                None => true,
            }),
            *source matches Term::Print(v) ==> (match *v {
                Term::Binary { op, lhs, rhs } => (match (
                    term_operand(*old(self), SCOPE_MAIN, *lhs),
                    term_operand(*old(self), SCOPE_MAIN, *rhs),
                ) {
                    (Some(a), Some(b)) => (match spec_combine(op, a, b) {
                        CombineSpec::Folded(cv) => r is Ok && final(self).it == old(self).it + 2
                            && final(self).const_view_at(((old(self).it + 2) as u64)) == Some(cv)
                            && final(self).constants@.len() == old(self).constants@.len() + 1
                            && final(self).print_queue@ == old(self).print_queue@.push(
                            ((old(self).it + 2) as u64),
                        ) && final(self).evaluation_queue@ == old(self).evaluation_queue@,
                        CombineSpec::Deferred(k) => r is Ok && final(self).print_queue@ == old(self).print_queue@.push(((old(self).it + 2) as u64)) && final(self).const_view_at(
                            ((old(self).it + 2) as u64),
                        ) == Some(defer_placeholder(k)),
                        CombineSpec::Fail(e0) => r matches Err(e2) && e2 == e0,
                    }),
                    _ => true,
                }),
                _ => true,
            }),
            *source matches Term::Let { name, value, next } ==> (match lit_view(*value) {
                Some(cv) => {
                    &&& final(self).const_view_at(((old(self).it + 2) as u64)) == Some(cv)
                    &&& final(self).tag_at(((old(self).it + 2) as u64)) == Some(view_tag(cv))
                    &&& (match *next {
                        Term::Print(pv) => (match *pv {
                            Term::Var(m) => m@ == name@ ==> (r is Ok && final(self).it == old(self).it + 4 && final(self).print_queue@ == old(self).print_queue@.push(
                                ((old(self).it + 2) as u64),
                            ) && final(self).evaluation_queue@ == old(self).evaluation_queue@
                                && final(self).constants@.len() == old(self).constants@.len() + 1),
                            _ => true,
                        }),
                        _ => true,
                    })
                },
                None => true,
            }),
            *source matches Term::Binary { op, lhs, rhs } ==> (match (
                term_operand(*old(self), SCOPE_MAIN, *lhs),
                term_operand(*old(self), SCOPE_MAIN, *rhs),
            ) {
                (Some(a), Some(b)) => (match spec_combine(op, a, b) {
                CombineSpec::Folded(v) => r is Ok && folds_to(
                    *old(self),
                    *final(self),
                    ((old(self).it + 1) as u64),
                    v,
                ),
                CombineSpec::Deferred(k) => r is Ok && defers_to(
                    *old(self),
                    *final(self),
                    SCOPE_MAIN,
                    ((old(self).it + 1) as u64),
                    op,
                    k,
                    a,
                    b,
                ),
                CombineSpec::Fail(e) => r matches Err(e2) && e2 == e,
                }),
                _ => true,
            }),
            (*source matches Term::Call { .. } || *source matches Term::Error(_)) ==> (
            r matches Err(e) && e == LowerError::UnsupportedConstruct(term_kind(*source))),
    {
        match self.evaluate(source, SCOPE_MAIN) {
            Ok(_) => Ok(()),
            Err(e) => Err(e),
        }
    }
}

/// Law: for two literal integer operands the folding matrix computes the
/// operator directly — the folded constant is the operator's value whenever
/// that value fits in an `i64` (addition, subtraction and multiplication
/// wrap outside that range), comparisons are the mathematical comparisons,
/// and a zero divisor is the division-by-zero error.
pub proof fn lemma_fold_int_literals(x: i64, y: i64)
    ensures
        spec_combine(BinaryOp::Add, OperandV::Int(x), OperandV::Int(y)) == CombineSpec::Folded(
            ConstView::Int(x.wrapping_add(y)),
        ),
        i64::MIN <= x + y <= i64::MAX ==> x.wrapping_add(y) == x + y,
        spec_combine(BinaryOp::Sub, OperandV::Int(x), OperandV::Int(y)) == CombineSpec::Folded(
            ConstView::Int(x.wrapping_sub(y)),
        ),
        i64::MIN <= x - y <= i64::MAX ==> x.wrapping_sub(y) == x - y,
        spec_combine(BinaryOp::Mul, OperandV::Int(x), OperandV::Int(y)) == CombineSpec::Folded(
            ConstView::Int(x.wrapping_mul(y)),
        ),
        y != 0 ==> spec_combine(BinaryOp::Div, OperandV::Int(x), OperandV::Int(y))
            == CombineSpec::Folded(ConstView::Int(wrap_div(x, y))),
        y == 0 ==> spec_combine(BinaryOp::Div, OperandV::Int(x), OperandV::Int(y))
            == CombineSpec::Fail(LowerError::DivisionByZero(BinaryOp::Div)),
        y != 0 ==> spec_combine(BinaryOp::Rem, OperandV::Int(x), OperandV::Int(y))
            == CombineSpec::Folded(ConstView::Int(wrap_rem(x, y))),
        y == 0 ==> spec_combine(BinaryOp::Rem, OperandV::Int(x), OperandV::Int(y))
            == CombineSpec::Fail(LowerError::DivisionByZero(BinaryOp::Rem)),
        spec_combine(BinaryOp::Lt, OperandV::Int(x), OperandV::Int(y)) == CombineSpec::Folded(
            ConstView::Bool(x < y),
        ),
        spec_combine(BinaryOp::Gt, OperandV::Int(x), OperandV::Int(y)) == CombineSpec::Folded(
            ConstView::Bool(x > y),
        ),
        spec_combine(BinaryOp::Lte, OperandV::Int(x), OperandV::Int(y)) == CombineSpec::Folded(
            ConstView::Bool(x <= y),
        ),
        spec_combine(BinaryOp::Gte, OperandV::Int(x), OperandV::Int(y)) == CombineSpec::Folded(
            ConstView::Bool(x >= y),
        ),
        spec_combine(BinaryOp::Eq, OperandV::Int(x), OperandV::Int(y)) == CombineSpec::Folded(
            ConstView::Bool(x == y),
        ),
        spec_combine(BinaryOp::Neq, OperandV::Int(x), OperandV::Int(y)) == CombineSpec::Folded(
            ConstView::Bool(x != y),
        ),
{
}

/// Law: for two literal string operands, `Add` folds to the concatenation
/// and `Eq`/`Neq` fold to string (in)equality.
pub proof fn lemma_fold_str_literals(s: Seq<char>, t: Seq<char>)
    ensures
        spec_combine(BinaryOp::Add, OperandV::Str(s), OperandV::Str(t)) == CombineSpec::Folded(
            ConstView::Str(s + t),
        ),
        spec_combine(BinaryOp::Eq, OperandV::Str(s), OperandV::Str(t)) == CombineSpec::Folded(
            ConstView::Bool(s == t),
        ),
        spec_combine(BinaryOp::Neq, OperandV::Str(s), OperandV::Str(t)) == CombineSpec::Folded(
            ConstView::Bool(s != t),
        ),
{
}

/// Law: for two literal boolean operands, `And`/`Or`/`Eq`/`Neq` fold to the
/// boolean operation's value.
pub proof fn lemma_fold_bool_literals(x: bool, y: bool)
    ensures
        spec_combine(BinaryOp::And, OperandV::Bool(x), OperandV::Bool(y)) == CombineSpec::Folded(
            ConstView::Bool(x && y),
        ),
        spec_combine(BinaryOp::Or, OperandV::Bool(x), OperandV::Bool(y)) == CombineSpec::Folded(
            ConstView::Bool(x || y),
        ),
        spec_combine(BinaryOp::Eq, OperandV::Bool(x), OperandV::Bool(y)) == CombineSpec::Folded(
            ConstView::Bool(x == y),
        ),
        spec_combine(BinaryOp::Neq, OperandV::Bool(x), OperandV::Bool(y)) == CombineSpec::Folded(
            ConstView::Bool(x != y),
        ),
{
}

/// Law: `And` and `Or` applied to any operand pair that is not two literal
/// booleans fail with a type mismatch; the matrix never defers them, so no
/// deferred instruction is ever produced for boolean logic.
pub proof fn lemma_bool_logic_boundary(op: BinaryOp, a: OperandV, b: OperandV)
    requires
        op == BinaryOp::And || op == BinaryOp::Or,
        !(a matches OperandV::Bool(_)) || !(b matches OperandV::Bool(_)),
    ensures
        spec_combine(op, a, b) == CombineSpec::Fail(
            (LowerError::TypeMismatch { kind: TermKind::Binary, op: Some(op) }),
        ),
        !(spec_combine(op, a, b) matches CombineSpec::Deferred(_)),
{
}

/// Law: in a well-formed state the slot ids recorded in the constant and
/// type tables are pairwise distinct and never exceed the counter — slot
/// ids assigned by one pass (always `it + 1`) can never collide.
pub proof fn lemma_slots_distinct(s: State)
    requires
        s.wf(),
    ensures
        forall|i: int, j: int|
            0 <= i < j < s.constants@.len() ==> s.constants@[i].0 != s.constants@[j].0,
        forall|i: int, j: int| 0 <= i < j < s.types@.len() ==> s.types@[i].0 != s.types@[j].0,
        forall|i: int| 0 <= i < s.constants@.len() ==> (#[trigger] s.constants@[i]).0 <= s.it,
        forall|i: int| 0 <= i < s.types@.len() ==> (#[trigger] s.types@[i]).0 <= s.it,
{
}

/// Law: name resolution prefers the current scope — a binding of a name in
/// the current scope shadows a binding of the same name in the global
/// scope, and only when the current scope has no binding is the global
/// scope consulted.
pub proof fn lemma_lookup_precedence(s: State, scope: u64, name: Seq<char>)
    ensures
        find_name(s.bindings_at(scope), name) matches Some(id) ==> s.lookup_spec(scope, name)
            == Some(id),
        find_name(s.bindings_at(scope), name) is None ==> s.lookup_spec(scope, name) == find_name(
            s.bindings_at(SCOPE_MAIN),
            name,
        ),
{
}

/// Law: in a well-formed state every slot referenced by the print queue, a
/// deferred instruction of any evaluation queue, the runtime queue, or the
/// function tables has both a recorded constant-or-placeholder and a type
/// tag.  Lowering ends in a well-formed state, so this holds whenever
/// emission starts.
pub proof fn lemma_references_defined(s: State)
    requires
        s.wf(),
    ensures
        forall|i: int| 0 <= i < s.print_queue@.len() ==> s.slot_defined(#[trigger] s.print_queue@[i]),
        forall|i: int| 0 <= i < s.functions@.len() ==> s.slot_defined(#[trigger] s.functions@[i]),
        forall|i: int|
            0 <= i < s.named_functions@.len() ==> s.slot_defined(
                (#[trigger] s.named_functions@[i]).1,
            ),
        forall|i: int, j: int|
            0 <= i < s.evaluation_queue@.len() && 0 <= j < s.evaluation_queue@[i].1@.len()
                ==> s.instr_defined(#[trigger] s.evaluation_queue@[i].1@[j]),
        forall|i: int|
            0 <= i < s.runtime_queue@.len() ==> s.slot_defined((#[trigger] s.runtime_queue@[i]).0)
                && s.instr_defined(s.runtime_queue@[i].1),
{
}

/// Law: growth of the state never reorders or drops what is already there —
/// in particular the print queue of a later state always has the earlier
/// print queue, in order, as a prefix, so prints are registered exactly in
/// source order.
pub proof fn lemma_print_order_preserved(pre: State, post: State)
    requires
        State::extends(pre, post),
    ensures
        crate::state::seq_extends(pre.print_queue@, post.print_queue@),
{
}

} // verus!
