//! Storage rules of a prompt notebook: slugs, file names, the index and the
//! reconciliation of index and directory, stated over plain values.

pub mod clock;
pub mod directory;
pub mod editor;
pub mod load;
pub mod lookup;
pub mod names;
pub mod paths;
pub mod record;
pub mod save;
pub mod select;
pub mod slug;
pub mod text;
