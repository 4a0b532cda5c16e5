//! Brace expansion and batch bookkeeping for creating empty files.

pub mod batch;
pub mod creator;
pub mod expand;
pub mod group;
pub mod reconstruct;
pub mod text;

pub use batch::{Action, Batch, BatchOutcome, CreationResult, Event};
pub use creator::FileCreator;
pub use expand::{expand, expand_all};
pub use reconstruct::reconstruct_files;
