//! Three-way merge of ref targets: the value of a named reference (absent,
//! one commit, or a conflict of added and removed commits) merged from two
//! descendants over a common base, with ancestry-aware simplification.

pub mod commit;
pub mod index;
pub mod merge;
pub mod merge_laws;
pub mod ref_target;

pub use commit::CommitId;
pub use index::{AncestorPairs, AncestryIndex};
pub use merge::{find_pair_to_remove, merge_ref_targets};
pub use ref_target::RefTarget;
