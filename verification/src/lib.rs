//! A single-pass lowering engine for a small expression language.
//!
//! The engine walks an abstract syntax tree ([`ast::Term`]) once and fills a
//! flat program representation ([`state::State`]): a table of compile-time
//! constants, a parallel table of one-byte runtime type tags, per-scope queues
//! of deferred instructions, and an ordered print queue.  Binary expressions
//! over literals are folded at lowering time; expressions that involve
//! variables become deferred runtime instructions.  A separate emission stage
//! ([`State::emit`](state::State)) serializes the finished state into the
//! lines of a C source artifact; writing that artifact to disk is left to the
//! caller.

pub mod ast;
pub mod emit;
pub mod lower;
pub mod state;

pub use ast::BinaryOp;
pub use ast::Term;
pub use state::ConstEntry;
pub use state::Instr;
pub use state::LowerError;
pub use state::State;
