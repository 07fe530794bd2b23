use remajiro_tools::batch::{plan_batch_entry, plan_lowered_entry, BatchTally, EntryAction};

#[test]
fn only_majiro_images_are_taken_up() {
    assert_eq!(plan_batch_entry("rct", "bg", false, false, false, false), EntryAction::Convert);
    assert_eq!(plan_batch_entry("RC8", "bg", false, false, false, false), EntryAction::Convert);
    assert_eq!(plan_batch_entry("Rct", "bg", false, false, false, false), EntryAction::Convert);
    assert_eq!(plan_batch_entry("png", "bg", false, false, false, false), EntryAction::Ignore);
    assert_eq!(plan_batch_entry("", "bg", false, false, false, false), EntryAction::Ignore);
}

#[test]
fn mask_files_only_in_raw_mode() {
    assert_eq!(plan_batch_entry("rct", "bg_", false, false, false, false), EntryAction::Ignore);
    assert_eq!(plan_batch_entry("rct", "bg_", true, false, false, false), EntryAction::Convert);
}

#[test]
fn existing_outputs_are_kept_unless_forced_or_not_writing() {
    assert_eq!(plan_batch_entry("rct", "bg", false, true, true, false), EntryAction::KeepExisting);
    assert_eq!(plan_batch_entry("rct", "bg", false, true, true, true), EntryAction::Convert);
    assert_eq!(plan_batch_entry("rct", "bg", false, false, true, false), EntryAction::Convert);
}

#[test]
fn tally_and_outcome() {
    let mut tally = BatchTally::new();
    tally.record_image(10, 20);
    tally.record_image(3, 3);
    tally.record_failure();
    assert_eq!(tally, BatchTally { converted: 2, errors: 1, total_pixels: 209 });
    assert_eq!(tally.outcome(true), Err(1));
    assert_eq!(tally.outcome(false), Ok(()));
    assert_eq!(BatchTally::new().outcome(true), Ok(()));
}

#[test]
fn lowered_extensions() {
    assert_eq!(plan_lowered_entry("rc8", "bg", false, false, false, false), EntryAction::Convert);
    assert_eq!(plan_lowered_entry("RCT", "bg", false, false, false, false), EntryAction::Ignore);
    assert_eq!(plan_lowered_entry("rct", "_", false, false, false, false), EntryAction::Ignore);
}
