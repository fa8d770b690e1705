//! Saving a font to its path. The font is first written beside its path,
//! under a temporary name; only once that write succeeded are the old files
//! removed and the new ones moved into place. The steps are decided here and
//! performed by the caller, who reports how each went.

use vstd::prelude::*;

verus! {

/// A step of saving; the step being performed, or the end reached.
#[derive(Clone, Copy, PartialEq, Eq, Debug, Structural)]
pub enum SaveStep {
    /// Write the glyphs of all open sessions into the font.
    Flush,
    /// Find out whether the temporary path exists.
    CheckTemp,
    /// Remove what is at the temporary path.
    RemoveTemp,
    /// Write the font to the temporary path.
    WriteTemp,
    /// Find out whether the font's path exists.
    CheckTarget,
    /// Remove what is at the font's path.
    RemoveTarget,
    /// Create the directory at the font's path (where renaming needs it).
    CreateTarget,
    /// Rename the temporary path to the font's path.
    MoveIntoPlace,
    /// Saved.
    Saved,
    /// A step failed; the save stops with its error.
    Failed,
    /// The font has no path; nothing was saved, and that is no error.
    NoPath,
}

/// How a step went.
#[derive(Clone, Copy, PartialEq, Eq, Debug, Structural)]
pub enum SaveOutcome {
    /// The step was done.
    Done,
    /// The path checked does (`true`) or does not exist.
    Exists(bool),
    /// The step failed.
    Error,
}

/// Whether saving has ended.
pub open spec fn finished(step: SaveStep) -> bool {
    step == SaveStep::Saved || step == SaveStep::Failed || step == SaveStep::NoPath
}

/// The step that moves the written font to its path, after the old files are
/// gone: on unix the target directory is created first.
pub open spec fn after_target_cleared(unix: bool) -> SaveStep {
    if unix {
        SaveStep::CreateTarget
    } else {
        SaveStep::MoveIntoPlace
    }
}

/// The step after `step`, given how it went. An existing path is removed; a
/// failed removal, write, creation or rename ends the save.
pub open spec fn save_next(step: SaveStep, outcome: SaveOutcome, unix: bool) -> SaveStep {
    match step {
        SaveStep::Flush => SaveStep::CheckTemp,
        SaveStep::CheckTemp => match outcome {
            SaveOutcome::Exists(true) => SaveStep::RemoveTemp,
            SaveOutcome::Error => SaveStep::Failed,
            _ => SaveStep::WriteTemp,
        },
        SaveStep::RemoveTemp => if outcome == SaveOutcome::Error {
            SaveStep::Failed
        } else {
            SaveStep::WriteTemp
        },
        SaveStep::WriteTemp => if outcome == SaveOutcome::Error {
            SaveStep::Failed
        } else {
            SaveStep::CheckTarget
        },
        SaveStep::CheckTarget => match outcome {
            SaveOutcome::Exists(true) => SaveStep::RemoveTarget,
            SaveOutcome::Error => SaveStep::Failed,
            _ => after_target_cleared(unix),
        },
        SaveStep::RemoveTarget => if outcome == SaveOutcome::Error {
            SaveStep::Failed
        } else {
            after_target_cleared(unix)
        },
        SaveStep::CreateTarget => if outcome == SaveOutcome::Error {
            SaveStep::Failed
        } else {
            SaveStep::MoveIntoPlace
        },
        SaveStep::MoveIntoPlace => if outcome == SaveOutcome::Error {
            SaveStep::Failed
        } else {
            SaveStep::Saved
        },
        _ => step,
    }
}

/// The first step of saving a font that has a path (`has_path`) or not.
pub fn first_step(has_path: bool) -> (step: SaveStep)
    ensures
        step == (if has_path {
            SaveStep::Flush
        } else {
            SaveStep::NoPath
        }),
{
    if has_path {
        SaveStep::Flush
    } else {
        SaveStep::NoPath
    }
}

/// The step after `step`, given how it went, on a unix system (`unix`) or
/// not.
pub fn next_step(step: SaveStep, outcome: SaveOutcome, unix: bool) -> (next: SaveStep)
    ensures
        next == save_next(step, outcome, unix),
{
    let failed = match outcome {
        SaveOutcome::Error => true,
        _ => false,
    };
    let exists = match outcome {
        SaveOutcome::Exists(b) => b,
        _ => false,
    };
    let cleared = if unix {
        SaveStep::CreateTarget
    } else {
        SaveStep::MoveIntoPlace
    };
    match step {
        SaveStep::Flush => SaveStep::CheckTemp,
        SaveStep::CheckTemp => if failed {
            SaveStep::Failed
        } else if exists {
            SaveStep::RemoveTemp
        } else {
            SaveStep::WriteTemp
        },
        SaveStep::RemoveTemp => if failed {
            SaveStep::Failed
        } else {
            SaveStep::WriteTemp
        },
        SaveStep::WriteTemp => if failed {
            SaveStep::Failed
        } else {
            SaveStep::CheckTarget
        },
        SaveStep::CheckTarget => if failed {
            SaveStep::Failed
        } else if exists {
            SaveStep::RemoveTarget
        } else {
            cleared
        },
        SaveStep::RemoveTarget => if failed {
            SaveStep::Failed
        } else {
            cleared
        },
        SaveStep::CreateTarget => if failed {
            SaveStep::Failed
        } else {
            SaveStep::MoveIntoPlace
        },
        SaveStep::MoveIntoPlace => if failed {
            SaveStep::Failed
        } else {
            SaveStep::Saved
        },
        _ => step,
    }
}

/// What saving returns once it has ended: `Some(true)` for success,
/// `Some(false)` for the error of the failed step, `None` while it goes on.
pub fn save_result(step: SaveStep) -> (res: Option<bool>)
    ensures
        res == (if !finished(step) {
            None
        } else {
            Some(step != SaveStep::Failed)
        }),
{
    match step {
        SaveStep::Saved | SaveStep::NoPath => Some(true),
        SaveStep::Failed => Some(false),
        _ => None,
    }
}

/// The name of the temporary file beside `file_name` ("Untitled" when the
/// path has none): the name with ".savefile" appended.
pub fn temp_file_name(file_name: Option<&str>) -> (name: String)
    ensures
        name@ == (match file_name {
            Some(n) => n@,
            None => "Untitled"@,
        }) + ".savefile"@,
{
    let mut name = match file_name {
        Some(n) => String::from_str(n),
        None => String::from_str("Untitled"),
    };
    name.append(".savefile");
    name
}

/// The step reached from `step` through the outcomes `outcomes`, in order.
pub open spec fn run_from(step: SaveStep, outcomes: Seq<SaveOutcome>, unix: bool) -> SaveStep
    decreases outcomes.len(),
{
    if outcomes.len() == 0 {
        step
    } else {
        run_from(save_next(step, outcomes[0], unix), outcomes.drop_first(), unix)
    }
}

/// Whether, on the way from `step` through `outcomes`, the font was written
/// to the temporary path without error.
pub open spec fn wrote_temp(step: SaveStep, outcomes: Seq<SaveOutcome>, unix: bool) -> bool
    decreases outcomes.len(),
{
    if outcomes.len() == 0 {
        false
    } else {
        (step == SaveStep::WriteTemp && outcomes[0] != SaveOutcome::Error) || wrote_temp(
            save_next(step, outcomes[0], unix),
            outcomes.drop_first(),
            unix,
        )
    }
}

/// The steps that touch the font's path, and the end they lead to.
pub open spec fn after_write(step: SaveStep) -> bool {
    step == SaveStep::CheckTarget || step == SaveStep::RemoveTarget || step
        == SaveStep::CreateTarget || step == SaveStep::MoveIntoPlace || step == SaveStep::Saved
}

/// At most how many more steps saving takes from `step`.
pub open spec fn steps_left(step: SaveStep) -> nat {
    match step {
        SaveStep::Flush => 8,
        SaveStep::CheckTemp => 7,
        SaveStep::RemoveTemp => 6,
        SaveStep::WriteTemp => 5,
        SaveStep::CheckTarget => 4,
        SaveStep::RemoveTarget => 3,
        SaveStep::CreateTarget => 2,
        SaveStep::MoveIntoPlace => 1,
        _ => 0,
    }
}

/// On every platform, old files found at the font's path are removed before
/// anything is created there or moved onto it: finding the path taken is
/// followed by its removal, and the directory is created and the font moved
/// into place only after the path was found free, removed, or (for the
/// move) the directory was created.
pub proof fn lemma_target_cleared(step: SaveStep, outcome: SaveOutcome, unix: bool)
    ensures
        step == SaveStep::CheckTarget && outcome == SaveOutcome::Exists(true) ==> save_next(
            step,
            outcome,
            unix,
        ) == SaveStep::RemoveTarget,
        save_next(step, outcome, unix) == SaveStep::CreateTarget ==> unix && ((step
            == SaveStep::CheckTarget && outcome != SaveOutcome::Exists(true) && outcome
            != SaveOutcome::Error) || (step == SaveStep::RemoveTarget && outcome
            != SaveOutcome::Error)),
        save_next(step, outcome, unix) == SaveStep::MoveIntoPlace ==> (step == SaveStep::CheckTarget
            && !unix && outcome != SaveOutcome::Exists(true) && outcome != SaveOutcome::Error) || (
        step == SaveStep::RemoveTarget && !unix && outcome != SaveOutcome::Error) || (step
            == SaveStep::CreateTarget && outcome != SaveOutcome::Error),
{
}

/// A failed removal, write, creation or rename stops the save with that
/// failure; a successful rename ends it saved; an ended save stays ended; a
/// temporary path found taken is cleared before the font is written there,
/// and the font is written only once that path is free.
pub proof fn lemma_failures_stop(step: SaveStep, outcome: SaveOutcome, unix: bool)
    ensures
        (step == SaveStep::RemoveTemp || step == SaveStep::WriteTemp || step
            == SaveStep::RemoveTarget || step == SaveStep::CreateTarget || step
            == SaveStep::MoveIntoPlace) && outcome == SaveOutcome::Error ==> save_next(
            step,
            outcome,
            unix,
        ) == SaveStep::Failed,
        step == SaveStep::MoveIntoPlace && outcome != SaveOutcome::Error ==> save_next(
            step,
            outcome,
            unix,
        ) == SaveStep::Saved,
        finished(step) ==> save_next(step, outcome, unix) == step,
        save_next(step, outcome, unix) == SaveStep::Saved ==> step == SaveStep::Saved || (step
            == SaveStep::MoveIntoPlace && outcome != SaveOutcome::Error),
        step == SaveStep::CheckTemp && outcome == SaveOutcome::Exists(true) ==> save_next(
            step,
            outcome,
            unix,
        ) == SaveStep::RemoveTemp,
        save_next(step, outcome, unix) == SaveStep::WriteTemp ==> (step == SaveStep::CheckTemp
            && outcome != SaveOutcome::Exists(true) && outcome != SaveOutcome::Error) || (step
            == SaveStep::RemoveTemp && outcome != SaveOutcome::Error),
{
}

/// The old files at the font's path are touched only after the font was
/// written to the temporary path: a save that starts at flushing and reaches
/// a step on the font's path, or success, has written the temporary file
/// without error on the way.
pub proof fn lemma_target_after_temp(outcomes: Seq<SaveOutcome>, unix: bool)
    ensures
        after_write(run_from(SaveStep::Flush, outcomes, unix)) ==> wrote_temp(
            SaveStep::Flush,
            outcomes,
            unix,
        ),
{
    lemma_after_write_needs_temp(SaveStep::Flush, outcomes, unix);
}

proof fn lemma_after_write_needs_temp(step: SaveStep, outcomes: Seq<SaveOutcome>, unix: bool)
    ensures
        after_write(run_from(step, outcomes, unix)) ==> after_write(step) || wrote_temp(
            step,
            outcomes,
            unix,
        ),
    decreases outcomes.len(),
{
    if outcomes.len() > 0 {
        lemma_after_write_needs_temp(save_next(step, outcomes[0], unix), outcomes.drop_first(), unix);
    }
}

/// Saving always ends: from any step, as many outcomes as `steps_left`
/// reach an end, and an end is never left.
pub proof fn lemma_save_ends(step: SaveStep, outcomes: Seq<SaveOutcome>, unix: bool)
    requires
        outcomes.len() >= steps_left(step),
    ensures
        finished(run_from(step, outcomes, unix)),
    decreases outcomes.len(),
{
    if outcomes.len() > 0 {
        lemma_save_ends(save_next(step, outcomes[0], unix), outcomes.drop_first(), unix);
    }
}

} // verus!
