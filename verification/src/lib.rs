//! A pre-edit decision filter: given a proposed whole-string replacement in a
//! source file, decide whether the edit is safe enough to approve without
//! manual review (whitespace-only changes and import-statement changes), or
//! whether to defer to the normal approval flow.

pub mod classify;
pub mod codec;
pub mod install;
pub mod text;
