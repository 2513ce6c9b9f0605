//! `powder`, a `pwd` with pretty printing: the current directory shown in
//! colour themes, a bounded history of visited directories, and reports on
//! the directory and its git repository. The library decides what is shown
//! and how; reading files, the working directory and git is left to the caller.
use vstd::prelude::*;

mod clock;
pub mod cwd;
pub mod history;
pub mod lines;
pub mod output;
pub mod paths;
pub mod reports;
pub mod text;
pub mod themes;

verus! {

} // verus!
