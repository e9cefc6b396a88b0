//! Discovery of GitHub issues for the repositories checked out under a
//! projects directory: which entries are GitHub repositories, which slug each
//! one has, what to ask the GitHub command-line client, and how its answer
//! becomes a flat list of issue records.
use vstd::prelude::*;

pub mod error;
pub mod issue;
pub mod json;
pub mod pipeline;
pub mod slug;

verus! {

} // verus!
