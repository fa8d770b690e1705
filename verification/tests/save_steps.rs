use runebender::save::SaveOutcome as O;
use runebender::save::{first_step, next_step, save_result, temp_file_name, SaveOutcome, SaveStep};

fn run(outcomes: &[SaveOutcome], unix: bool) -> Vec<SaveStep> {
    let mut step = first_step(true);
    let mut steps = vec![step];
    for o in outcomes {
        step = next_step(step, *o, unix);
        steps.push(step);
    }
    steps
}

#[test]
fn no_path_saves_nothing_and_succeeds() {
    let step = first_step(false);
    assert_eq!(step, SaveStep::NoPath);
    assert_eq!(save_result(step), Some(true));
    assert_eq!(next_step(step, SaveOutcome::Done, true), SaveStep::NoPath);
}

#[test]
fn full_save_on_unix_replaces_existing_files() {
    let steps = run(&[O::Done, O::Exists(true), O::Done, O::Done, O::Exists(true), O::Done, O::Done, O::Done], true);
    assert_eq!(
        steps,
        vec![
            SaveStep::Flush,
            SaveStep::CheckTemp,
            SaveStep::RemoveTemp,
            SaveStep::WriteTemp,
            SaveStep::CheckTarget,
            SaveStep::RemoveTarget,
            SaveStep::CreateTarget,
            SaveStep::MoveIntoPlace,
            SaveStep::Saved,
        ]
    );
    assert_eq!(save_result(SaveStep::Saved), Some(true));
}

#[test]
fn fresh_save_elsewhere_skips_removals_and_creation() {
    let steps = run(&[O::Done, O::Exists(false), O::Done, O::Exists(false), O::Done], false);
    assert_eq!(
        steps,
        vec![
            SaveStep::Flush,
            SaveStep::CheckTemp,
            SaveStep::WriteTemp,
            SaveStep::CheckTarget,
            SaveStep::MoveIntoPlace,
            SaveStep::Saved,
        ]
    );
}

#[test]
fn failed_write_leaves_the_target_alone() {
    let steps = run(&[O::Done, O::Exists(false), O::Error, O::Done], true);
    assert_eq!(steps[3], SaveStep::Failed);
    assert_eq!(steps[4], SaveStep::Failed);
    assert_eq!(save_result(SaveStep::Failed), Some(false));
    assert_eq!(save_result(SaveStep::WriteTemp), None);
}

#[test]
fn failed_rename_fails_the_save() {
    assert_eq!(next_step(SaveStep::MoveIntoPlace, SaveOutcome::Error, true), SaveStep::Failed);
    assert_eq!(next_step(SaveStep::RemoveTarget, SaveOutcome::Error, false), SaveStep::Failed);
}

#[test]
fn temp_name_appends_savefile() {
    assert_eq!(temp_file_name(Some("MyFont.ufo")), "MyFont.ufo.savefile");
    assert_eq!(temp_file_name(None), "Untitled.savefile");
}
