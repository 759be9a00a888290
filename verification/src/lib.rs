//! The entry store of a terminal journal: dated text entries kept newest first,
//! a selection that follows deletions, and the rules by which both change.

pub mod entry;
pub mod help_popup;
pub mod laws;
pub mod lookup;
pub mod model;
pub mod order;
pub mod store;

pub use entry::{Entry, EntryDraft, Timestamp};
pub use model::JournalState;
pub use store::App;
