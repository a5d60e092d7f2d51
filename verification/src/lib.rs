//! A fragment-versioning sentence editor and cloze-quiz compiler.
//!
//! A sentence is split into word fragments; the author reshapes the
//! fragmentation (join adjacent fragments, reorder, undo) through a linear
//! version history, attaches graded answer alternatives to fragments, and
//! compiles the result into a gap-fill quiz encoding.

pub mod answers;
pub mod compile;
pub mod laws;
pub mod sentence;

pub use compile::CompileError;
pub use sentence::AnswerOption;
pub use sentence::EditError;
pub use sentence::Sentence;
