use color_organ::bank::Banks;
use color_organ::bank::FixtureRun;
use color_organ::bank::PatternSequence;
use color_organ::fixture::FixtureId;
use color_organ::unipolar::Unipolar;

#[test]
/// A fresh bank collection has nothing selected, so triggers route
/// nowhere.
fn test_banks_start_unselected() {
    let mut banks = Banks::new(4);
    assert_eq!(banks.current_bank(), None);
    let ids = banks.next(Unipolar::one());
    assert!(ids.is_empty());
}

#[test]
/// A run hands out one fixture per trigger and wraps around.
fn test_fixture_run_cycles() {
    let mut run = FixtureRun {
        fixtures: vec![FixtureId(5), FixtureId(6), FixtureId(7)],
        current_index: 0,
    };
    assert_eq!(run.next(), (vec![FixtureId(5)], true));
    assert_eq!(run.next(), (vec![FixtureId(6)], true));
    assert_eq!(run.next(), (vec![FixtureId(7)], false));
    assert_eq!(run.next(), (vec![FixtureId(5)], true));
}

#[test]
/// A fixture set hands out every fixture on every trigger.
fn test_fixture_set_delivers_all() {
    let mut sequence = PatternSequence::FixtureSet(vec![FixtureId(1), FixtureId(2)]);
    let (ids, has_more) = sequence.next();
    assert_eq!(ids, vec![FixtureId(1), FixtureId(2)]);
    assert!(!has_more);
    let (again, _) = sequence.next();
    assert_eq!(again, vec![FixtureId(1), FixtureId(2)]);
}
