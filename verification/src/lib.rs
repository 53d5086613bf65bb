//! Verified core of CodeHarbor: the rules, text and file layout behind its
//! Docker workspaces and evaluation reports.
use vstd::prelude::*;

pub mod commands;
pub mod environment;
pub mod evaluation;
pub mod project;
pub mod paths;
pub mod report;
pub mod sorting;
pub mod text;

verus! {

} // verus!
