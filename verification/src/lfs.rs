//! What the lfs tools read from the outcomes of `git lfs` commands.

use vstd::prelude::*;
use crate::git::{lines_if_ok, split_lines};
use crate::shared::Outcome;
use crate::text::views;

verus! {

/// The lfs files (`git lfs ls-files -al`), one line per file.
pub fn list(output: &Outcome) -> (res: Option<Vec<String>>)
    ensures
        lines_if_ok(*output) == (match res {
            Some(v) => Some(views(v@)),
            None => None,
        }),
{
    if output.status {
        Some(split_lines(output.out.as_str()))
    } else {
        None
    }
}

/// Whether `git lfs fetch --all` succeeded.
pub fn fetch(output: &Outcome) -> (res: bool)
    ensures
        res == output.status,
{
    output.status
}

/// Whether `git lfs push --all <remote>` succeeded.
pub fn push(output: &Outcome) -> (res: bool)
    ensures
        res == output.status,
{
    output.status
}

} // verus!
