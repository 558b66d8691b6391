//! A small interactive shell library.
//!
//! The library holds the logic of a line-oriented command interpreter:
//! tokenizing an input line, deciding between builtin and external
//! commands, the step-by-step protocol that launches an external program
//! as the foreground job of the controlling terminal, and the record
//! arithmetic of a work-time log kept in CSV form. All terminal, file and
//! process I/O lives outside the library; callers hand in plain values and
//! perform the actions the library prescribes.

pub mod dispatch;
pub mod launch;
pub mod timelog;
pub mod tokens;

pub use dispatch::BuiltinKind;
pub use dispatch::Dispatch;
pub use launch::ChildAction;
pub use launch::ChildState;
pub use launch::Outcome;
pub use launch::ParentAction;
pub use launch::ParentState;
pub use launch::TtySignal;
pub use timelog::WorkCmd;
pub use tokens::Action;
