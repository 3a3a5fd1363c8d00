//! Verified core of project-rule discovery and gitignore stacking.
//!
//! `gitignore_stack` keeps the gitignore matchers that are active while a
//! directory tree is walked; `path_text` holds the path operations it needs;
//! `remote_project_rules` holds the state machine that decides when the rules of
//! a repository are refreshed and which refresh results may still be applied.
use vstd::prelude::*;

pub mod path_text;
pub mod gitignore_stack;
pub mod remote_project_rules;

verus! {

} // verus!
