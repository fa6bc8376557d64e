//! What a run does with its inputs: classify each, apply the dispatch
//! policy, and either copy paths or stream text.

use vstd::prelude::*;
use crate::classifier::{content_views, inspect_all, verdicts_upto};
use crate::dispatch::{batch_decision, decide, duplicate_paths, DispatchOutcome, OutcomeView};
use crate::paths::{path_views, InputPath, PathView};

verus! {

/// What a run goes on to do.
#[derive(Debug, Clone, PartialEq, Eq)]
pub enum Action {
    /// Resolve the one path and copy it as a bitmap.
    CopyImage(InputPath),
    /// Resolve every path and copy them as file objects.
    CopyFiles(Vec<InputPath>),
    /// Stream the named files as text.
    StreamFiles(Vec<InputPath>),
    /// Stream standard input as text.
    StreamStdin,
}

/// Why a run ends before anything is copied.
#[derive(Debug, Clone, Copy, PartialEq, Eq, Structural)]
pub enum PlanError {
    /// The input at `index` could not be read.
    Unreadable { index: usize },
    /// The batch mixes kinds.
    Mixed { image_count: usize, file_count: usize, text_count: usize },
}

/// What an `Action` stands for in contracts.
pub enum ActionView {
    CopyImage(PathView),
    CopyFiles(Seq<PathView>),
    StreamFiles(Seq<PathView>),
    StreamStdin,
}

/// What a `PlanError` stands for in contracts.
pub enum PlanErrorView {
    Unreadable { index: int },
    Mixed { image_count: int, file_count: int, text_count: int },
}

impl View for Action {
    type V = ActionView;

    open spec fn view(&self) -> ActionView {
        match self {
            Action::CopyImage(p) => ActionView::CopyImage(p@),
            Action::CopyFiles(ps) => ActionView::CopyFiles(path_views(ps@)),
            Action::StreamFiles(ps) => ActionView::StreamFiles(path_views(ps@)),
            Action::StreamStdin => ActionView::StreamStdin,
        }
    }
}

impl View for PlanError {
    type V = PlanErrorView;

    open spec fn view(&self) -> PlanErrorView {
        match self {
            PlanError::Unreadable { index } => PlanErrorView::Unreadable { index: *index as int },
            PlanError::Mixed { image_count, file_count, text_count } => PlanErrorView::Mixed {
                image_count: *image_count as int,
                file_count: *file_count as int,
                text_count: *text_count as int,
            },
        }
    }
}

/// What the policy's outcome means for a run over `paths`: a mixed batch
/// ends it, every other outcome is an action.
pub open spec fn action_for(paths: Seq<PathView>, outcome: OutcomeView) -> Result<
    ActionView,
    PlanErrorView,
> {
    match outcome {
        OutcomeView::SingleImage(p) => Ok(ActionView::CopyImage(p)),
        OutcomeView::MultiAsFileObjects(ps) => Ok(ActionView::CopyFiles(ps)),
        OutcomeView::RejectedMixed { image_count, file_count, text_count } => Err(
            PlanErrorView::Mixed { image_count, file_count, text_count },
        ),
        OutcomeView::FallThroughText => Ok(ActionView::StreamFiles(paths)),
    }
}

/// The plan for a run: with no path, text from standard input; else every
/// path is classified, the first that cannot be ends the run, and the
/// policy decides on the verdicts.
pub open spec fn planned(paths: Seq<PathView>, contents: Seq<Option<Seq<u8>>>) -> Result<
    ActionView,
    PlanErrorView,
> {
    if paths.len() == 0 {
        Ok(ActionView::StreamStdin)
    } else {
        match verdicts_upto(paths, contents, paths.len() as int) {
            Ok(verdicts) => action_for(paths, batch_decision(paths, verdicts)),
            Err(index) => Err(PlanErrorView::Unreadable { index }),
        }
    }
}

/// Plans a run over `paths`. `contents[i]` is what could be read of
/// `paths[i]`: `None` where it could not be read, or was not, because its
/// extension decides alone.
pub fn plan(paths: &Vec<InputPath>, contents: &Vec<Option<Vec<u8>>>) -> (r: Result<
    Action,
    PlanError,
>)
    ensures
        match r {
            Ok(action) => Ok::<ActionView, PlanErrorView>(action@),
            Err(e) => Err(e@),
        } == planned(path_views(paths@), content_views(contents@)),
{
    if paths.len() == 0 {
        return Ok(Action::StreamStdin);
    }
    match inspect_all(paths, contents) {
        Ok(verdicts) => match decide(paths, &verdicts) {
            DispatchOutcome::SingleImage(p) => Ok(Action::CopyImage(p)),
            DispatchOutcome::MultiAsFileObjects(ps) => Ok(Action::CopyFiles(ps)),
            DispatchOutcome::RejectedMixed { image_count, file_count, text_count } => Err(
                PlanError::Mixed { image_count, file_count, text_count },
            ),
            DispatchOutcome::FallThroughText => Ok(Action::StreamFiles(duplicate_paths(paths))),
        },
        Err(index) => Err(PlanError::Unreadable { index }),
    }
}

} // verus!
