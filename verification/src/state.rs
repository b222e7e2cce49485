//! The flat program representation that lowering fills and emission reads.
//!
//! Every intermediate value of the lowered program is identified by a slot id
//! (`u64`), assigned by a strictly increasing counter and never reused.  The
//! [`State`] keeps, per slot, an optional compile-time constant and a one-byte
//! runtime type tag, plus the per-scope queues of deferred instructions, the
//! ordered print queue and the function tables.
//!
//! The central invariant is [`State::wf`]: association keys are pairwise
//! distinct and bounded by the slot counter, and every slot referenced by the
//! print queue, a deferred instruction, a binding or a function table entry
//! has both a recorded constant (or placeholder) and a type tag.

use crate::ast::BinaryOp;
use crate::ast::TermKind;
use vstd::prelude::*;

verus! {

/// Runtime type tag for a string slot.
pub const TAG_STRING: u8 = 0xca;

/// Runtime type tag for an integer slot.
pub const TAG_INT: u8 = 0xfe;

/// Runtime type tag for a boolean slot.
pub const TAG_BOOLEAN: u8 = 0xba;

/// Runtime type tag for a slot whose type is only known at runtime.
pub const TAG_UNKNOWN: u8 = 0xbe;

/// Runtime type tag for a tuple slot.
pub const TAG_TUPLE: u8 = 0x10;

/// The scope id of the implicit global (main) scope.
pub const SCOPE_MAIN: u64 = 0;

/// Why a lowering pass was aborted.  Any error aborts the whole pass; there
/// is no partial output and no recovery.
#[derive(Debug)]
pub enum LowerError {
    /// An operator was applied to an operand-kind combination outside the
    /// folding matrix, or an `if` condition was not statically known to be
    /// boolean; carries the offending node's kind and, for an operator
    /// mismatch, the operator.
    TypeMismatch { kind: TermKind, op: Option<BinaryOp> },
    /// A variable name was bound neither in the current scope nor in the
    /// global scope; carries the name.
    UnboundVariable(String),
    /// The construct cannot be lowered: a reserved `Call` or `Error` node,
    /// or an `if` whose condition is only known at runtime; carries the
    /// node's kind.
    UnsupportedConstruct(TermKind),
    /// Constant folding met a zero divisor; carries `Div` or `Rem`.
    DivisionByZero(BinaryOp),
}

/// The compile-time constant recorded for a slot: either a folded literal
/// value, or a placeholder for a value that only exists at runtime.
pub enum ConstEntry {
    /// A folded integer literal.
    Int(i64),
    /// A folded string literal.
    Str(String),
    /// A folded boolean literal.
    Bool(bool),
    /// Placeholder for a runtime value of unknown type.
    Uninit,
    /// Placeholder for a runtime integer.
    UninitInt,
    /// Placeholder for a runtime boolean.
    UninitBool,
    /// Placeholder for a tuple, filled by deferred field-set instructions.
    TupleInit,
}

/// The mathematical value of a [`ConstEntry`].
pub enum ConstView {
    Int(i64),
    Str(Seq<char>),
    Bool(bool),
    Uninit,
    UninitInt,
    UninitBool,
    TupleInit,
}

impl View for ConstEntry {
    type V = ConstView;

    open spec fn view(&self) -> ConstView {
        match self {
            ConstEntry::Int(i) => ConstView::Int(*i),
            ConstEntry::Str(s) => ConstView::Str(s@),
            ConstEntry::Bool(b) => ConstView::Bool(*b),
            ConstEntry::Uninit => ConstView::Uninit,
            ConstEntry::UninitInt => ConstView::UninitInt,
            ConstEntry::UninitBool => ConstView::UninitBool,
            ConstEntry::TupleInit => ConstView::TupleInit,
        }
    }
}

/// The type tag that belongs to each constant value: a folded or runtime
/// integer is INT, a string STRING, a boolean BOOLEAN, a tuple TUPLE, and a
/// value of unknown runtime type UNKNOWN.
pub open spec fn view_tag(v: ConstView) -> u8 {
    match v {
        ConstView::Int(_) => TAG_INT,
        ConstView::Str(_) => TAG_STRING,
        ConstView::Bool(_) => TAG_BOOLEAN,
        ConstView::Uninit => TAG_UNKNOWN,
        ConstView::UninitInt => TAG_INT,
        ConstView::UninitBool => TAG_BOOLEAN,
        ConstView::TupleInit => TAG_TUPLE,
    }
}

/// How one operand of a deferred instruction is rendered: a variable slot
/// (runtime tag), a materialized integer constant, or a materialized string
/// constant.
#[derive(Clone, Copy, Debug, PartialEq, Eq, Structural)]
pub enum ArgKind {
    Var,
    IntConst,
    StrConst,
}

/// One operand of a deferred binary instruction.
#[derive(Clone, Copy, Debug, PartialEq, Eq, Structural)]
pub struct BinArg {
    pub slot: u64,
    pub kind: ArgKind,
}

/// A deferred instruction, replayed by the emitted program.
#[derive(Clone, Copy, Debug, PartialEq, Eq, Structural)]
pub enum Instr {
    /// Coercion-aware concatenation (an `Add` with a string or mixed
    /// operands) into `dst`.
    Concat { dst: u64, lhs: BinArg, rhs: BinArg },
    /// Deferred arithmetic (`Sub`, `Mul`, `Div`, `Rem`, or `Add` on numbers)
    /// into `dst`, parameterized by the operator.
    Arith { dst: u64, op: BinaryOp, lhs: BinArg, rhs: BinArg },
    /// Deferred comparison into `dst`, parameterized by the operator.
    Compare { dst: u64, op: BinaryOp, lhs: BinArg, rhs: BinArg },
    /// Record field `index` (0 or 1) of the tuple in `dst` as coming from
    /// slot `src`.
    TupleSet { dst: u64, index: u8, src: u64 },
    /// Deferred tuple field access: `dst` becomes field `index` of `src`.
    TupleGet { dst: u64, src: u64, index: u8 },
}

/// Last-wins lookup in an association sequence keyed by slot or scope id.
pub open spec fn find_slot<V>(s: Seq<(u64, V)>, k: u64) -> Option<V>
    decreases s.len(),
{
    if s.len() == 0 {
        None
    } else if s.last().0 == k {
        Some(s.last().1)
    } else {
        find_slot(s.drop_last(), k)
    }
}

/// Last-wins lookup of a name in a binding list, so that a later binding of
/// the same name shadows an earlier one.
pub open spec fn find_name(s: Seq<(String, u64)>, name: Seq<char>) -> Option<u64>
    decreases s.len(),
{
    if s.len() == 0 {
        None
    } else if s.last().0@ == name {
        Some(s.last().1)
    } else {
        find_name(s.drop_last(), name)
    }
}

/// The keys of an association sequence are pairwise distinct.
pub open spec fn keys_unique<V>(s: Seq<(u64, V)>) -> bool {
    forall|i: int, j: int| 0 <= i < j < s.len() ==> s[i].0 != s[j].0
}

/// Every key is a slot id already assigned: at least 1 and at most `m`.
pub open spec fn slot_keys_bounded<V>(s: Seq<(u64, V)>, m: u64) -> bool {
    forall|i: int| 0 <= i < s.len() ==> 1 <= (#[trigger] s[i]).0 <= m
}

/// Every key is a scope id already assigned: the global scope 0 or a slot id
/// at most `m`.
pub open spec fn scope_keys_bounded<V>(s: Seq<(u64, V)>, m: u64) -> bool {
    forall|i: int| 0 <= i < s.len() ==> (#[trigger] s[i]).0 <= m
}

pub proof fn lemma_find_push<V>(s: Seq<(u64, V)>, id: u64, v: V, k: u64)
    ensures
        find_slot(s.push((id, v)), k) == if k == id {
            Some(v)
        } else {
            find_slot(s, k)
        },
{
    assert(s.push((id, v)).drop_last() =~= s);
}

pub proof fn lemma_find_absent<V>(s: Seq<(u64, V)>, k: u64)
    requires
        forall|i: int| 0 <= i < s.len() ==> (#[trigger] s[i]).0 != k,
    ensures
        find_slot(s, k) is None,
    decreases s.len(),
{
    if s.len() > 0 {
        assert(s.last() == s[s.len() - 1]);
        lemma_find_absent(s.drop_last(), k);
    }
}

pub proof fn lemma_find_unique_index<V>(s: Seq<(u64, V)>, i: int)
    requires
        keys_unique(s),
        0 <= i < s.len(),
    ensures
        find_slot(s, s[i].0) == Some(s[i].1),
    decreases s.len(),
{
    if i == s.len() - 1 {
        assert(s.last() == s[i]);
    } else {
        assert(s.last() == s[s.len() - 1]);
        assert(s.last().0 != s[i].0);
        lemma_find_unique_index(s.drop_last(), i);
    }
}

pub proof fn lemma_find_update<V>(s: Seq<(u64, V)>, i: int, v: V, k: u64)
    requires
        keys_unique(s),
        0 <= i < s.len(),
    ensures
        find_slot(s.update(i, (s[i].0, v)), k) == if k == s[i].0 {
            Some(v)
        } else {
            find_slot(s, k)
        },
        keys_unique(s.update(i, (s[i].0, v))),
    decreases s.len(),
{
    let s2 = s.update(i, (s[i].0, v));
    assert(forall|j: int| 0 <= j < s.len() && j != i ==> s2[j] == s[j]);
    if i == s.len() - 1 {
        assert(s2.last() == (s[i].0, v));
        assert(s2.drop_last() =~= s.drop_last());
        if k != s[i].0 {
            assert(find_slot(s, k) == find_slot(s.drop_last(), k));
        }
    } else {
        assert(s2.last() == s.last());
        assert(s2.drop_last() =~= s.drop_last().update(i, (s[i].0, v)));
        assert(s.drop_last()[i] == s[i]);
        lemma_find_update(s.drop_last(), i, v, k);
        if k == s[i].0 {
            assert(s.last().0 != s[i].0);
        }
    }
}

pub proof fn lemma_find_slot_in<V>(s: Seq<(u64, V)>, k: u64)
    requires
        find_slot(s, k) is Some,
    ensures
        exists|i: int|
            0 <= i < s.len() && (#[trigger] s[i]).0 == k && Some(s[i].1) == find_slot(s, k),
    decreases s.len(),
{
    if s.len() > 0 {
        if s.last().0 == k {
            assert(s[s.len() - 1] == s.last());
        } else {
            lemma_find_slot_in(s.drop_last(), k);
            let i = choose|i: int|
                0 <= i < s.drop_last().len() && (#[trigger] s.drop_last()[i]).0 == k && Some(
                    s.drop_last()[i].1,
                ) == find_slot(s.drop_last(), k);
            assert(s[i] == s.drop_last()[i]);
        }
    }
}

pub proof fn lemma_find_name_in(s: Seq<(String, u64)>, name: Seq<char>)
    requires
        find_name(s, name) is Some,
    ensures
        exists|i: int|
            0 <= i < s.len() && (#[trigger] s[i]).0@ == name && Some(s[i].1) == find_name(s, name),
    decreases s.len(),
{
    if s.len() > 0 {
        if s.last().0@ == name {
            assert(s[s.len() - 1] == s.last());
        } else {
            lemma_find_name_in(s.drop_last(), name);
            let i = choose|i: int|
                0 <= i < s.drop_last().len() && (#[trigger] s.drop_last()[i]).0@ == name
                    && Some(s.drop_last()[i].1) == find_name(s.drop_last(), name);
            assert(s[i] == s.drop_last()[i]);
        }
    }
}

/// The constant/tag consistency clauses of [`State::wf`] carry over to any
/// state with the same constant and tag tables.
pub proof fn lemma_tag_consistency_carries(a: State, b: State)
    requires
        forall|k: u64|
            (#[trigger] a.const_at(k)) matches Some(e) ==> a.tag_at(k) == Some(view_tag(e@)),
        forall|k: u64| (#[trigger] a.tag_at(k)) is Some ==> a.const_at(k) is Some,
        b.constants@ == a.constants@,
        b.types@ == a.types@,
    ensures
        forall|k: u64|
            (#[trigger] b.const_at(k)) matches Some(e) ==> b.tag_at(k) == Some(view_tag(e@)),
        forall|k: u64| (#[trigger] b.tag_at(k)) is Some ==> b.const_at(k) is Some,
{
    assert forall|k: u64| (#[trigger] b.const_at(k)) is Some implies b.tag_at(k) == Some(
        view_tag(b.const_at(k).unwrap()@),
    ) by {
        assert(b.const_at(k) == a.const_at(k));
        assert(b.tag_at(k) == a.tag_at(k));
    }
    assert forall|k: u64| (#[trigger] b.tag_at(k)) is Some implies b.const_at(k) is Some by {
        assert(b.const_at(k) == a.const_at(k));
        assert(b.tag_at(k) == a.tag_at(k));
    }
}

/// Law: in a well-formed state, a slot has a constant exactly when it has a
/// tag, the tag is determined by the constant's kind (`view_tag`), and every
/// recorded tag byte is one of the five legal values.
pub proof fn lemma_tags_legal(s: State)
    requires
        s.wf(),
    ensures
        forall|k: u64| (#[trigger] s.const_at(k)) is Some <==> s.tag_at(k) is Some,
        forall|k: u64|
            (#[trigger] s.const_at(k)) matches Some(e) ==> s.tag_at(k) == Some(view_tag(e@)),
        forall|i: int|
            0 <= i < s.types@.len() ==> ((#[trigger] s.types@[i]).1 == TAG_STRING || s.types@[i].1
                == TAG_INT || s.types@[i].1 == TAG_BOOLEAN || s.types@[i].1 == TAG_UNKNOWN
                || s.types@[i].1 == TAG_TUPLE),
{
    assert forall|i: int| 0 <= i < s.types@.len() implies ((#[trigger] s.types@[i]).1 == TAG_STRING
        || s.types@[i].1 == TAG_INT || s.types@[i].1 == TAG_BOOLEAN || s.types@[i].1 == TAG_UNKNOWN
        || s.types@[i].1 == TAG_TUPLE) by {
        lemma_find_unique_index(s.types@, i);
        assert(s.tag_at(s.types@[i].0) == Some(s.types@[i].1));
    }
}

/// `a` is an unchanged initial segment of `b`.
pub open spec fn seq_extends<T>(a: Seq<T>, b: Seq<T>) -> bool {
    a.len() <= b.len() && forall|i: int| 0 <= i < a.len() ==> a[i] == b[i]
}

/// The whole engine state of one lowering pass.
pub struct State {
    /// Slot id -> compile-time constant or placeholder.
    pub constants: Vec<(u64, ConstEntry)>,
    /// Slot id -> one-byte runtime type tag.
    pub types: Vec<(u64, u8)>,
    /// Slots to print, in source order of the `Print` occurrences.
    pub print_queue: Vec<u64>,
    /// Entry slots of all lowered functions, anonymous ones included, in
    /// definition order.
    pub functions: Vec<u64>,
    /// Name -> entry slot for functions bound by a `let`.
    pub named_functions: Vec<(String, u64)>,
    /// Scope id -> binding list (name -> slot); a later entry shadows an
    /// earlier one of the same name.
    pub scoped_variables: Vec<(u64, Vec<(String, u64)>)>,
    /// Scope id -> deferred instructions replayed when that scope's body
    /// runs.
    pub evaluation_queue: Vec<(u64, Vec<Instr>)>,
    /// Slot id -> one unconditional instruction replayed before any scope
    /// body.  This engine never fills it; emission still replays it.
    pub runtime_queue: Vec<(u64, Instr)>,
    /// The last slot id assigned; slot ids start at 1.
    pub it: u64,
}

impl State {
    /// The constant recorded for a slot, if any.
    pub open spec fn const_at(self, id: u64) -> Option<ConstEntry> {
        find_slot(self.constants@, id)
    }

    /// The mathematical value of the constant recorded for a slot.
    pub open spec fn const_view_at(self, id: u64) -> Option<ConstView> {
        match find_slot(self.constants@, id) {
            Some(e) => Some(e@),
            None => None,
        }
    }

    /// The type tag recorded for a slot, if any.
    pub open spec fn tag_at(self, id: u64) -> Option<u8> {
        find_slot(self.types@, id)
    }

    /// A slot is defined when it has both a constant (or placeholder) and a
    /// type tag.
    pub open spec fn slot_defined(self, id: u64) -> bool {
        self.const_at(id) is Some && self.tag_at(id) is Some
    }

    /// The binding list of a scope; empty if the scope has no bindings yet.
    pub open spec fn bindings_at(self, scope: u64) -> Seq<(String, u64)> {
        match find_slot(self.scoped_variables@, scope) {
            Some(v) => v@,
            None => Seq::empty(),
        }
    }

    /// Name resolution: the current scope first, then the global scope.
    pub open spec fn lookup_spec(self, scope: u64, name: Seq<char>) -> Option<u64> {
        match find_name(self.bindings_at(scope), name) {
            Some(id) => Some(id),
            None => find_name(self.bindings_at(SCOPE_MAIN), name),
        }
    }

    /// The deferred instructions of a scope, in insertion order.
    pub open spec fn queue_at(self, scope: u64) -> Seq<Instr> {
        match find_slot(self.evaluation_queue@, scope) {
            Some(v) => v@,
            None => Seq::empty(),
        }
    }

    pub open spec fn arg_defined(self, a: BinArg) -> bool {
        self.slot_defined(a.slot)
    }

    /// Every slot an instruction references is defined.
    pub open spec fn instr_defined(self, i: Instr) -> bool {
        match i {
            Instr::Concat { dst, lhs, rhs } => self.slot_defined(dst) && self.arg_defined(lhs)
                && self.arg_defined(rhs),
            Instr::Arith { dst, op, lhs, rhs } => self.slot_defined(dst) && self.arg_defined(lhs)
                && self.arg_defined(rhs),
            Instr::Compare { dst, op, lhs, rhs } => self.slot_defined(dst) && self.arg_defined(lhs)
                && self.arg_defined(rhs),
            Instr::TupleSet { dst, index, src } => self.slot_defined(dst) && self.slot_defined(src),
            Instr::TupleGet { dst, src, index } => self.slot_defined(dst) && self.slot_defined(src),
        }
    }

    /// Well-formedness: keys are distinct and bounded by the slot counter,
    /// and every referenced slot is defined.
    pub open spec fn wf(self) -> bool {
        &&& keys_unique(self.constants@)
        &&& keys_unique(self.types@)
        &&& keys_unique(self.scoped_variables@)
        &&& keys_unique(self.evaluation_queue@)
        &&& keys_unique(self.runtime_queue@)
        &&& slot_keys_bounded(self.constants@, self.it)
        &&& slot_keys_bounded(self.types@, self.it)
        &&& scope_keys_bounded(self.scoped_variables@, self.it)
        &&& scope_keys_bounded(self.evaluation_queue@, self.it)
        &&& slot_keys_bounded(self.runtime_queue@, self.it)
        &&& forall|i: int|
            0 <= i < self.print_queue@.len() ==> self.slot_defined(#[trigger] self.print_queue@[i])
        &&& forall|i: int|
            0 <= i < self.functions@.len() ==> self.slot_defined(#[trigger] self.functions@[i])
        &&& forall|i: int|
            0 <= i < self.named_functions@.len() ==> self.slot_defined(
                (#[trigger] self.named_functions@[i]).1,
            )
        &&& forall|i: int, j: int|
            0 <= i < self.scoped_variables@.len() && 0 <= j < self.scoped_variables@[i].1@.len()
                ==> self.slot_defined((#[trigger] self.scoped_variables@[i].1@[j]).1)
        &&& forall|i: int, j: int|
            0 <= i < self.evaluation_queue@.len() && 0 <= j < self.evaluation_queue@[i].1@.len()
                ==> self.instr_defined(#[trigger] self.evaluation_queue@[i].1@[j])
        &&& forall|i: int|
            0 <= i < self.runtime_queue@.len() ==> self.slot_defined(
                (#[trigger] self.runtime_queue@[i]).0,
            ) && self.instr_defined(self.runtime_queue@[i].1)
        &&& forall|k: u64|
            (#[trigger] self.const_at(k)) matches Some(e) ==> self.tag_at(k) == Some(view_tag(e@))
        &&& forall|k: u64| (#[trigger] self.tag_at(k)) is Some ==> self.const_at(k) is Some
    }

    /// How lowering grows a state: every table is append-only, the slot
    /// counter never decreases, recorded constants and tags never change,
    /// and every slot recorded after `pre` is strictly newer than `pre`'s
    /// counter (so slot ids never collide).
    pub open spec fn extends(pre: State, post: State) -> bool {
        &&& pre.it <= post.it
        &&& seq_extends(pre.constants@, post.constants@)
        &&& seq_extends(pre.types@, post.types@)
        &&& seq_extends(pre.print_queue@, post.print_queue@)
        &&& seq_extends(pre.functions@, post.functions@)
        &&& seq_extends(pre.named_functions@, post.named_functions@)
        &&& seq_extends(pre.runtime_queue@, post.runtime_queue@)
        &&& forall|sc: u64| seq_extends(#[trigger] pre.queue_at(sc), post.queue_at(sc))
        &&& forall|sc: u64| seq_extends(#[trigger] pre.bindings_at(sc), post.bindings_at(sc))
        &&& forall|k: u64| pre.const_at(k) is Some ==> post.const_at(k) == pre.const_at(k)
        &&& forall|k: u64| pre.tag_at(k) is Some ==> post.tag_at(k) == pre.tag_at(k)
    }

    /// Every constant or tag recorded between `pre` and `post` sits at a slot
    /// assigned after `pre`: slot ids of one pass never collide.
    pub open spec fn records_fresh(pre: State, post: State) -> bool {
        &&& forall|i: int|
            pre.constants@.len() <= i < post.constants@.len() ==> (
            #[trigger] post.constants@[i]).0 > pre.it
        &&& forall|i: int|
            pre.types@.len() <= i < post.types@.len() ==> (#[trigger] post.types@[i]).0 > pre.it
    }

    /// A fresh, empty state, ready for one lowering pass.
    pub fn new() -> (s: State)
        ensures
            s.wf(),
            s.it == 0,
            s.constants@.len() == 0,
            s.types@.len() == 0,
            s.print_queue@.len() == 0,
            s.functions@.len() == 0,
            s.named_functions@.len() == 0,
            s.scoped_variables@.len() == 0,
            s.evaluation_queue@.len() == 0,
            s.runtime_queue@.len() == 0,
    {
        State {
            constants: Vec::new(),
            types: Vec::new(),
            print_queue: Vec::new(),
            functions: Vec::new(),
            named_functions: Vec::new(),
            scoped_variables: Vec::new(),
            evaluation_queue: Vec::new(),
            runtime_queue: Vec::new(),
            it: 0,
        }
    }

    /// Transitivity of [`State::extends`].
    pub proof fn lemma_extends_trans(a: State, b: State, c: State)
        requires
            State::extends(a, b),
            State::extends(b, c),
        ensures
            State::extends(a, c),
    {
    }

    /// Transitivity of [`State::records_fresh`] along [`State::extends`].
    pub proof fn lemma_fresh_trans(a: State, b: State, c: State)
        requires
            State::extends(a, b),
            State::extends(b, c),
            State::records_fresh(a, b),
            State::records_fresh(b, c),
        ensures
            State::records_fresh(a, c),
    {
        assert forall|i: int|
            a.constants@.len() <= i < c.constants@.len() implies (#[trigger] c.constants@[i]).0
            > a.it by {
            if i < b.constants@.len() {
                assert(c.constants@[i] == b.constants@[i]);
            }
        }
        assert forall|i: int|
            a.types@.len() <= i < c.types@.len() implies (#[trigger] c.types@[i]).0 > a.it by {
            if i < b.types@.len() {
                assert(c.types@[i] == b.types@[i]);
            }
        }
    }

    /// A slot below `base.it` that `base` has not recorded stays unrecorded
    /// through any growth whose new records are fresh.
    pub proof fn lemma_slot_unrecorded(base: State, post: State, id: u64)
        requires
            State::extends(base, post),
            State::records_fresh(base, post),
            id <= base.it,
            forall|i: int|
                0 <= i < base.constants@.len() ==> (#[trigger] base.constants@[i]).0 != id,
            forall|i: int| 0 <= i < base.types@.len() ==> (#[trigger] base.types@[i]).0 != id,
        ensures
            forall|i: int|
                0 <= i < post.constants@.len() ==> (#[trigger] post.constants@[i]).0 != id,
            forall|i: int| 0 <= i < post.types@.len() ==> (#[trigger] post.types@[i]).0 != id,
    {
        assert forall|i: int|
            0 <= i < post.constants@.len() implies (#[trigger] post.constants@[i]).0 != id by {
            if i < base.constants@.len() {
                assert(post.constants@[i] == base.constants@[i]);
            }
        }
        assert forall|i: int|
            0 <= i < post.types@.len() implies (#[trigger] post.types@[i]).0 != id by {
            if i < base.types@.len() {
                assert(post.types@[i] == base.types@[i]);
            }
        }
    }

    /// Assign the next slot id.
    pub(crate) fn next_slot(&mut self) -> (id: u64)
        requires
            old(self).wf(),
            old(self).it < u64::MAX,
        ensures
            final(self).wf(),
            State::extends(*old(self), *final(self)),
            State::records_fresh(*old(self), *final(self)),
            final(self).it == old(self).it + 1,
            id == final(self).it,
            final(self).constants == old(self).constants,
            final(self).types == old(self).types,
            final(self).print_queue == old(self).print_queue,
            final(self).functions == old(self).functions,
            final(self).named_functions == old(self).named_functions,
            final(self).scoped_variables == old(self).scoped_variables,
            final(self).evaluation_queue == old(self).evaluation_queue,
            final(self).runtime_queue == old(self).runtime_queue,
    {
        let ghost s0 = *self;
        self.it = self.it + 1;
        proof {
            lemma_tag_consistency_carries(s0, *self);
        }
        self.it
    }

    /// The constant recorded for a slot, if any.
    pub fn const_lookup(&self, id: u64) -> (r: Option<&ConstEntry>)
        ensures
            match r {
                Some(e) => self.const_at(id) == Some(*e),
                None => self.const_at(id) is None,
            },
    {
        let mut i: usize = self.constants.len();
        proof {
            assert(self.constants@.take(i as int) =~= self.constants@);
        }
        while i > 0
            invariant
                i <= self.constants@.len(),
                find_slot(self.constants@, id) == find_slot(self.constants@.take(i as int), id),
            decreases i,
        {
            i = i - 1;
            proof {
                assert(self.constants@.take(i + 1).drop_last() =~= self.constants@.take(i as int));
                assert(self.constants@.take(i + 1).last() == self.constants@[i as int]);
            }
            if self.constants[i].0 == id {
                return Some(&self.constants[i].1);
            }
        }
        proof {
            assert(self.constants@.take(0).len() == 0);
        }
        None
    }

    /// Record constant `entry` and type tag `tag` for the fresh slot `id`.
    pub(crate) fn record(&mut self, id: u64, entry: ConstEntry, tag: u8)
        requires
            old(self).wf(),
            1 <= id <= old(self).it,
            forall|i: int|
                0 <= i < old(self).constants@.len() ==> (#[trigger] old(self).constants@[i]).0
                    != id,
            forall|i: int|
                0 <= i < old(self).types@.len() ==> (#[trigger] old(self).types@[i]).0 != id,
            tag == view_tag(entry@),
        ensures
            final(self).wf(),
            State::extends(*old(self), *final(self)),
            old(self).const_at(id) is None,
            old(self).tag_at(id) is None,
            final(self).constants@ == old(self).constants@.push((id, entry)),
            final(self).types@ == old(self).types@.push((id, tag)),
            final(self).const_at(id) == Some(entry),
            final(self).tag_at(id) == Some(tag),
            forall|k: u64|
                k != id ==> final(self).const_at(k) == old(self).const_at(k) && final(self).tag_at(
                    k,
                ) == old(self).tag_at(k),
            forall|k: u64| old(self).slot_defined(k) ==> final(self).slot_defined(k),
            final(self).print_queue == old(self).print_queue,
            final(self).functions == old(self).functions,
            final(self).named_functions == old(self).named_functions,
            final(self).scoped_variables == old(self).scoped_variables,
            final(self).evaluation_queue == old(self).evaluation_queue,
            final(self).runtime_queue == old(self).runtime_queue,
            final(self).it == old(self).it,
    {
        let ghost oldc = self.constants@;
        let ghost oldt = self.types@;
        self.constants.push((id, entry));
        self.types.push((id, tag));
        proof {
            lemma_find_absent(oldc, id);
            lemma_find_absent(oldt, id);
            assert(seq_extends(oldc, self.constants@));
            assert(seq_extends(oldt, self.types@));
            assert forall|k: u64| true implies self.const_at(k) == (if k == id {
                Some(oldc.push((id, entry))[oldc.len() as int].1)
            } else {
                find_slot(oldc, k)
            }) by {
                lemma_find_push(oldc, id, oldc.push((id, entry))[oldc.len() as int].1, k);
            }
            assert forall|k: u64| true implies self.tag_at(k) == (if k == id {
                Some(tag)
            } else {
                find_slot(oldt, k)
            }) by {
                lemma_find_push(oldt, id, tag, k);
            }
            assert forall|k: u64| (#[trigger] self.const_at(k)) is Some implies self.tag_at(k)
                == Some(view_tag(self.const_at(k).unwrap()@)) by {
                if k != id {
                    assert(self.const_at(k) == old(self).const_at(k));
                    assert(self.tag_at(k) == old(self).tag_at(k));
                }
            }
            assert forall|k: u64| (#[trigger] self.tag_at(k)) is Some implies self.const_at(
                k,
            ) is Some by {
                if k != id {
                    assert(self.const_at(k) == old(self).const_at(k));
                    assert(self.tag_at(k) == old(self).tag_at(k));
                }
            }
        }
    }

    /// Append a deferred instruction to `scope`'s evaluation queue.
    pub(crate) fn push_instr(&mut self, scope: u64, instr: Instr)
        requires
            old(self).wf(),
            scope <= old(self).it,
            old(self).instr_defined(instr),
        ensures
            final(self).wf(),
            State::extends(*old(self), *final(self)),
            State::records_fresh(*old(self), *final(self)),
            final(self).queue_at(scope) == old(self).queue_at(scope).push(instr),
            forall|sc: u64| sc != scope ==> final(self).queue_at(sc) == old(self).queue_at(sc),
            final(self).constants == old(self).constants,
            final(self).types == old(self).types,
            final(self).print_queue == old(self).print_queue,
            final(self).functions == old(self).functions,
            final(self).named_functions == old(self).named_functions,
            final(self).scoped_variables == old(self).scoped_variables,
            final(self).runtime_queue == old(self).runtime_queue,
            final(self).it == old(self).it,
    {
        let ghost s0 = *self;
        let ghost oldq = self.evaluation_queue@;
        match find_key_index(&self.evaluation_queue, scope) {
            Some(i) => {
                let ghost inner = oldq[i as int].1@;
                self.evaluation_queue[i].1.push(instr);
                proof {
                    assert(self.evaluation_queue@ =~= oldq.update(
                        i as int,
                        (scope, self.evaluation_queue@[i as int].1),
                    ));
                    assert forall|k: u64| true implies find_slot(self.evaluation_queue@, k) == (
                    if k == scope {
                        Some(self.evaluation_queue@[i as int].1)
                    } else {
                        find_slot(oldq, k)
                    }) by {
                        lemma_find_update(oldq, i as int, self.evaluation_queue@[i as int].1, k);
                    }
                    lemma_find_unique_index(oldq, i as int);
                    assert(self.evaluation_queue@[i as int].1@ =~= inner.push(instr));
                }
            },
            None => {
                let mut v: Vec<Instr> = Vec::new();
                v.push(instr);
                self.evaluation_queue.push((scope, v));
                proof {
                    let pushed = self.evaluation_queue@[oldq.len() as int].1;
                    assert forall|k: u64| true implies find_slot(self.evaluation_queue@, k) == (
                    if k == scope {
                        Some(pushed)
                    } else {
                        find_slot(oldq, k)
                    }) by {
                        lemma_find_push(oldq, scope, pushed, k);
                    }
                    lemma_find_absent(oldq, scope);
                    assert(pushed@ =~= Seq::<Instr>::empty().push(instr));
                }
            },
        }
        proof {
            lemma_tag_consistency_carries(s0, *self);
        }
    }

    /// Bind `name` to slot `id` in `scope`, shadowing an earlier binding of
    /// the same name.
    pub(crate) fn bind(&mut self, scope: u64, name: String, id: u64)
        requires
            old(self).wf(),
            scope <= old(self).it,
            old(self).slot_defined(id),
        ensures
            final(self).wf(),
            State::extends(*old(self), *final(self)),
            State::records_fresh(*old(self), *final(self)),
            final(self).bindings_at(scope) == old(self).bindings_at(scope).push((name, id)),
            forall|sc: u64|
                sc != scope ==> final(self).bindings_at(sc) == old(self).bindings_at(sc),
            final(self).constants == old(self).constants,
            final(self).types == old(self).types,
            final(self).print_queue == old(self).print_queue,
            final(self).functions == old(self).functions,
            final(self).named_functions == old(self).named_functions,
            final(self).evaluation_queue == old(self).evaluation_queue,
            final(self).runtime_queue == old(self).runtime_queue,
            final(self).it == old(self).it,
    {
        let ghost s0 = *self;
        let ghost oldv = self.scoped_variables@;
        match find_key_index(&self.scoped_variables, scope) {
            Some(i) => {
                let ghost inner = oldv[i as int].1@;
                self.scoped_variables[i].1.push((name, id));
                proof {
                    assert(self.scoped_variables@ =~= oldv.update(
                        i as int,
                        (scope, self.scoped_variables@[i as int].1),
                    ));
                    assert forall|k: u64| true implies find_slot(self.scoped_variables@, k) == (
                    if k == scope {
                        Some(self.scoped_variables@[i as int].1)
                    } else {
                        find_slot(oldv, k)
                    }) by {
                        lemma_find_update(oldv, i as int, self.scoped_variables@[i as int].1, k);
                    }
                    lemma_find_unique_index(oldv, i as int);
                    assert(self.scoped_variables@[i as int].1@ =~= inner.push(
                        self.scoped_variables@[i as int].1@.last(),
                    ));
                }
            },
            None => {
                let mut v: Vec<(String, u64)> = Vec::new();
                v.push((name, id));
                self.scoped_variables.push((scope, v));
                proof {
                    let pushed = self.scoped_variables@[oldv.len() as int].1;
                    assert forall|k: u64| true implies find_slot(self.scoped_variables@, k) == (
                    if k == scope {
                        Some(pushed)
                    } else {
                        find_slot(oldv, k)
                    }) by {
                        lemma_find_push(oldv, scope, pushed, k);
                    }
                    lemma_find_absent(oldv, scope);
                    assert(pushed@ =~= Seq::<(String, u64)>::empty().push(pushed@.last()));
                }
            },
        }
        proof {
            lemma_tag_consistency_carries(s0, *self);
        }
    }

    /// Append a slot to the print queue.
    pub(crate) fn push_print(&mut self, id: u64)
        requires
            old(self).wf(),
            old(self).slot_defined(id),
        ensures
            final(self).wf(),
            State::extends(*old(self), *final(self)),
            State::records_fresh(*old(self), *final(self)),
            final(self).print_queue@ == old(self).print_queue@.push(id),
            final(self).constants == old(self).constants,
            final(self).types == old(self).types,
            final(self).functions == old(self).functions,
            final(self).named_functions == old(self).named_functions,
            final(self).scoped_variables == old(self).scoped_variables,
            final(self).evaluation_queue == old(self).evaluation_queue,
            final(self).runtime_queue == old(self).runtime_queue,
            final(self).it == old(self).it,
    {
        let ghost s0 = *self;
        self.print_queue.push(id);
        proof {
            lemma_tag_consistency_carries(s0, *self);
        }
    }

    /// Append an entry slot to the ordered function list.
    pub(crate) fn push_function(&mut self, id: u64)
        requires
            old(self).wf(),
            old(self).slot_defined(id),
        ensures
            final(self).wf(),
            State::extends(*old(self), *final(self)),
            State::records_fresh(*old(self), *final(self)),
            final(self).functions@ == old(self).functions@.push(id),
            final(self).constants == old(self).constants,
            final(self).types == old(self).types,
            final(self).print_queue == old(self).print_queue,
            final(self).named_functions == old(self).named_functions,
            final(self).scoped_variables == old(self).scoped_variables,
            final(self).evaluation_queue == old(self).evaluation_queue,
            final(self).runtime_queue == old(self).runtime_queue,
            final(self).it == old(self).it,
    {
        let ghost s0 = *self;
        self.functions.push(id);
        proof {
            lemma_tag_consistency_carries(s0, *self);
        }
    }

    /// Register a named function.
    pub(crate) fn push_named(&mut self, name: String, id: u64)
        requires
            old(self).wf(),
            old(self).slot_defined(id),
        ensures
            final(self).wf(),
            State::extends(*old(self), *final(self)),
            State::records_fresh(*old(self), *final(self)),
            final(self).named_functions@ == old(self).named_functions@.push((name, id)),
            final(self).constants == old(self).constants,
            final(self).types == old(self).types,
            final(self).print_queue == old(self).print_queue,
            final(self).functions == old(self).functions,
            final(self).scoped_variables == old(self).scoped_variables,
            final(self).evaluation_queue == old(self).evaluation_queue,
            final(self).runtime_queue == old(self).runtime_queue,
            final(self).it == old(self).it,
    {
        let ghost s0 = *self;
        self.named_functions.push((name, id));
        proof {
            lemma_tag_consistency_carries(s0, *self);
        }
    }

    /// Resolve a name: the current scope's bindings first, then the global
    /// scope's.
    pub fn lookup(&self, scope: u64, name: &String) -> (r: Option<u64>)
        requires
            self.wf(),
        ensures
            r == self.lookup_spec(scope, name@),
            r matches Some(id) ==> self.slot_defined(id),
    {
        let local = match find_key_index(&self.scoped_variables, scope) {
            Some(i) => {
                proof {
                    lemma_find_unique_index(self.scoped_variables@, i as int);
                }
                find_binding(&self.scoped_variables[i].1, name)
            },
            None => {
                proof {
                    lemma_find_absent(self.scoped_variables@, scope);
                }
                None
            },
        };
        let r = match local {
            Some(id) => Some(id),
            None => {
                match find_key_index(&self.scoped_variables, SCOPE_MAIN) {
                    Some(i) => {
                        proof {
                            lemma_find_unique_index(self.scoped_variables@, i as int);
                        }
                        find_binding(&self.scoped_variables[i].1, name)
                    },
                    None => {
                        proof {
                            lemma_find_absent(self.scoped_variables@, SCOPE_MAIN);
                        }
                        None
                    },
                }
            },
        };
        proof {
            if r is Some {
                self.lemma_lookup_defined(scope, name@);
            }
        }
        r
    }

    /// A resolved slot is always defined, because every binding in a
    /// well-formed state points at a defined slot.
    pub proof fn lemma_lookup_defined(self, scope: u64, name: Seq<char>)
        requires
            self.wf(),
            self.lookup_spec(scope, name) is Some,
        ensures
            self.slot_defined(self.lookup_spec(scope, name).unwrap()),
    {
        let sc = if find_name(self.bindings_at(scope), name) is Some {
            scope
        } else {
            SCOPE_MAIN
        };
        lemma_find_name_in(self.bindings_at(sc), name);
        if self.bindings_at(sc).len() > 0 {
            lemma_find_slot_in(self.scoped_variables@, sc);
        }
    }
}

/// Last-wins search of a binding list, matching [`find_name`].
pub(crate) fn find_binding(bindings: &Vec<(String, u64)>, name: &String) -> (r: Option<u64>)
    ensures
        r == find_name(bindings@, name@),
{
    let mut i: usize = bindings.len();
    proof {
        assert(bindings@.take(i as int) =~= bindings@);
    }
    while i > 0
        invariant
            i <= bindings@.len(),
            find_name(bindings@, name@) == find_name(bindings@.take(i as int), name@),
        decreases i,
    {
        i = i - 1;
        proof {
            assert(bindings@.take(i + 1).drop_last() =~= bindings@.take(i as int));
            assert(bindings@.take(i + 1).last() == bindings@[i as int]);
        }
        if bindings[i].0 == *name {
            return Some(bindings[i].1);
        }
    }
    proof {
        assert(bindings@.take(0).len() == 0);
    }
    None
}

/// Index of the entry with key `k`, if present.
pub(crate) fn find_key_index<V>(v: &Vec<(u64, V)>, k: u64) -> (r: Option<usize>)
    ensures
        match r {
            Some(i) => i < v@.len() && v@[i as int].0 == k,
            None => forall|i: int| 0 <= i < v@.len() ==> (#[trigger] v@[i]).0 != k,
        },
{
    let n = v.len();
    let mut i: usize = 0;
    while i < n
        invariant
            i <= n,
            n == v@.len(),
            forall|j: int| 0 <= j < i ==> (#[trigger] v@[j]).0 != k,
        decreases n - i,
    {
        if v[i].0 == k {
            return Some(i);
        }
        i = i + 1;
    }
    None
}

} // verus!
