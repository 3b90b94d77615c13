//! Rendering, one file at a time. The template engine does its work
//! outside this library; what is decided here is which file is rendered
//! next, where its fragment goes, and what a failure comes to.

use vstd::prelude::*;
use crate::discover::{OrderedFileList, SourceFile};

verus! {

/// A file that could not be rendered: it did not parse as a template, or
/// rendering it failed, the embedding directive included.
#[derive(Debug)]
pub struct RenderError {
    /// The path of the file.
    pub file: String,
    /// What the template engine reported.
    pub detail: String,
}

/// What the caller is to do next.
#[derive(Debug)]
pub enum NextStep {
    /// Register the file at this place of the list as a template under
    /// its own path, with its own text, render it with an empty context,
    /// and hand in what came of it.
    Render(usize),
    /// Every file has its fragment.
    Done,
    /// The run has failed on this file; no further file is rendered.
    Failed(RenderError),
}

/// The step that follows once `done` files have their fragments.
pub open spec fn step_after(files: Seq<SourceFile>, done: nat) -> NextStep {
    if done >= files.len() {
        NextStep::Done
    } else {
        NextStep::Render(done as usize)
    }
}

/// The first step of a run: the first file, or nothing to do where there
/// are no files.
pub fn first_step(files: &OrderedFileList) -> (next: NextStep)
    ensures
        next == step_after(files@, 0),
{
    if files.len() == 0 {
        NextStep::Done
    } else {
        NextStep::Render(0)
    }
}

/// Takes in what came of rendering the file whose turn it was, the one
/// at place `fragments.len()` of the list.
///
/// A fragment goes to the end of `fragments`, so that fragments stand in
/// the order of their files, and the next file is asked for, if there is
/// one. A failure leaves `fragments` as they are and ends the run with a
/// `RenderError` that names the file and carries the detail. Where every
/// file has its fragment already, the outcome is dropped.
pub fn take_outcome(
    files: &OrderedFileList,
    fragments: &mut Vec<String>,
    outcome: Result<String, String>,
) -> (next: NextStep)
    ensures
        old(fragments)@.len() >= files@.len() ==> final(fragments)@ == old(fragments)@ && next
            is Done,
        old(fragments)@.len() < files@.len() ==> match outcome {
            Ok(fragment) => final(fragments)@ == old(fragments)@.push(fragment) && next
                == step_after(files@, final(fragments)@.len()),
            Err(detail) => final(fragments)@ == old(fragments)@ && (next matches NextStep::Failed(e)
                && e.file@ == files@[old(fragments)@.len() as int].path@ && e.detail == detail),
        },
{
    let turn = fragments.len();
    let list = files.files();
    if turn >= list.len() {
        return NextStep::Done;
    }
    match outcome {
        Ok(fragment) => {
            fragments.push(fragment);
            if fragments.len() == list.len() {
                NextStep::Done
            } else {
                NextStep::Render(fragments.len())
            }
        },
        Err(detail) => NextStep::Failed(RenderError { file: list[turn].path.clone(), detail }),
    }
}

} // verus!
