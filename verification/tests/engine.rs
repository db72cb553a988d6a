use rustyface::download::{DownloadArguments, LargeFileInformation};
use rustyface::engine::{Slot, TransferEngine};
use rustyface::transfer::TransferStatus;

const HASH: &str = "e3b0c44298fc1c149afbf4c8996fb92427ae41e4649b934ca495991b7852b855";

fn file(name: &str) -> LargeFileInformation {
    LargeFileInformation::new(format!("https://hf-mirror.com/o/r/resolve/main/{}", name), HASH.into())
}

fn batch(names: &[&str]) -> Vec<LargeFileInformation> {
    names.iter().map(|name| file(name)).collect()
}

fn slots(engine: &TransferEngine) -> Vec<Slot> {
    (0..engine.len()).map(|i| engine.slot(i).unwrap()).collect()
}

#[test]
fn a_new_engine_has_everything_waiting() {
    let engine = TransferEngine::new(2, batch(&["a", "b", "c"]));
    assert_eq!(engine.len(), 3);
    assert_eq!(engine.limit(), 2);
    assert_eq!(engine.active(), 0);
    assert!(!engine.is_cancelled());
    assert!(!engine.is_finished());
    assert_eq!(slots(&engine), vec![Slot::Waiting, Slot::Waiting, Slot::Waiting]);
    assert_eq!(engine.slot(3), None);
    assert!(engine.file(3).is_none());
    assert_eq!(engine.file(1).unwrap().url, "https://hf-mirror.com/o/r/resolve/main/b");
}

#[test]
fn never_more_are_active_than_the_limit() {
    let engine = TransferEngine::new(2, batch(&["a", "b", "c", "d", "e"]));
    let (engine, first) = engine.dispatch();
    assert_eq!(first, Some(0));
    assert_eq!(engine.active(), 1);
    let (engine, second) = engine.dispatch();
    assert_eq!(second, Some(1));
    assert_eq!(engine.active(), 2);
    let (engine, third) = engine.dispatch();
    assert_eq!(third, None);
    assert_eq!(engine.active(), 2);
    assert_eq!(
        slots(&engine),
        vec![Slot::Active, Slot::Active, Slot::Waiting, Slot::Waiting, Slot::Waiting]
    );

    let (engine, recorded) = engine.complete(0, TransferStatus::Verified);
    assert!(recorded);
    assert_eq!(engine.active(), 1);
    let (engine, next) = engine.dispatch();
    assert_eq!(next, Some(2));
    let (engine, next) = engine.dispatch();
    assert_eq!(next, None);
    assert_eq!(engine.active(), 2);
}

#[test]
fn the_bound_holds_through_a_whole_run() {
    let mut engine = TransferEngine::new(3, batch(&["a", "b", "c", "d", "e", "f", "g", "h"]));
    let mut running: Vec<usize> = Vec::new();
    let mut started: Vec<usize> = Vec::new();
    while !engine.is_finished() {
        loop {
            let (next, id) = engine.dispatch();
            engine = next;
            match id {
                Some(id) => {
                    running.push(id);
                    started.push(id);
                },
                None => break,
            }
            assert!(engine.active() <= 3);
        }
        assert_eq!(engine.active(), running.len());
        assert!(running.len() <= 3);
        let id = running.remove(0);
        let (next, recorded) = engine.complete(id, TransferStatus::Verified);
        assert!(recorded);
        engine = next;
    }
    assert_eq!(started, vec![0, 1, 2, 3, 4, 5, 6, 7]);
    assert_eq!(engine.active(), 0);
    assert_eq!(engine.tally().completed, 8);
}

#[test]
fn a_limit_of_zero_starts_nothing() {
    let (engine, next) = TransferEngine::new(0, batch(&["a"])).dispatch();
    assert_eq!(next, None);
    assert_eq!(engine.active(), 0);
    assert!(!engine.is_finished());
}

#[test]
fn two_transfers_to_one_file_do_not_run_together() {
    let engine = TransferEngine::new(4, batch(&["model.bin", "model.bin", "other.bin"]));
    let (engine, first) = engine.dispatch();
    assert_eq!(first, Some(0));
    let (engine, second) = engine.dispatch();
    assert_eq!(second, Some(2));
    let (engine, third) = engine.dispatch();
    assert_eq!(third, None);
    assert_eq!(slots(&engine), vec![Slot::Active, Slot::Waiting, Slot::Active]);

    let (engine, _) = engine.complete(0, TransferStatus::Verified);
    let (engine, next) = engine.dispatch();
    assert_eq!(next, Some(1));
    assert_eq!(
        slots(&engine),
        vec![Slot::Done(TransferStatus::Verified), Slot::Active, Slot::Active]
    );
}

#[test]
fn the_destination_is_the_last_segment_and_not_the_url() {
    let files = vec![
        LargeFileInformation::new("https://one/x/model.bin".into(), HASH.into()),
        LargeFileInformation::new("https://two/y/model.bin".into(), HASH.into()),
    ];
    let (engine, first) = TransferEngine::new(2, files).dispatch();
    assert_eq!(first, Some(0));
    let (_, second) = engine.dispatch();
    assert_eq!(second, None);
}

#[test]
fn only_the_end_of_an_active_transfer_is_recorded() {
    let engine = TransferEngine::new(2, batch(&["a", "b"]));
    let (engine, recorded) = engine.complete(0, TransferStatus::Verified);
    assert!(!recorded);
    assert_eq!(slots(&engine), vec![Slot::Waiting, Slot::Waiting]);
    let (engine, _) = engine.dispatch();
    let (engine, recorded) = engine.complete(0, TransferStatus::InFlight);
    assert!(!recorded);
    let (engine, recorded) = engine.complete(0, TransferStatus::Pending);
    assert!(!recorded);
    let (engine, recorded) = engine.complete(0, TransferStatus::Resuming);
    assert!(!recorded);
    let (engine, recorded) = engine.complete(5, TransferStatus::Verified);
    assert!(!recorded);
    let (engine, recorded) = engine.complete(1, TransferStatus::Verified);
    assert!(!recorded);
    assert_eq!(slots(&engine), vec![Slot::Active, Slot::Waiting]);
    let (engine, recorded) = engine.complete(0, TransferStatus::Failed);
    assert!(recorded);
    let (engine, recorded) = engine.complete(0, TransferStatus::Verified);
    assert!(!recorded);
    assert_eq!(slots(&engine), vec![Slot::Done(TransferStatus::Failed), Slot::Waiting]);
}

fn run_with_end_of_first(status: TransferStatus) -> TransferEngine {
    let engine = TransferEngine::new(2, batch(&["a", "b", "c"]));
    let (engine, _) = engine.dispatch();
    let (engine, _) = engine.dispatch();
    let (engine, _) = engine.complete(0, status);
    let (engine, next) = engine.dispatch();
    assert_eq!(next, Some(2));
    let (engine, _) = engine.complete(1, TransferStatus::Verified);
    let (engine, _) = engine.complete(2, TransferStatus::Mismatched);
    engine
}

#[test]
fn a_failed_transfer_changes_nothing_for_the_others() {
    let with_failure = run_with_end_of_first(TransferStatus::Failed);
    let without = run_with_end_of_first(TransferStatus::Verified);
    assert_eq!(with_failure.slot(1), without.slot(1));
    assert_eq!(with_failure.slot(2), without.slot(2));
    assert_eq!(with_failure.slot(1), Some(Slot::Done(TransferStatus::Verified)));
    assert_eq!(with_failure.slot(2), Some(Slot::Done(TransferStatus::Mismatched)));
    assert!(with_failure.is_finished());

    let tally = with_failure.tally();
    assert_eq!(tally.total, 3);
    assert_eq!(tally.completed, 2);
    assert_eq!(tally.failed, 1);
    assert_eq!(without.tally().completed, 3);
    assert_eq!(without.tally().failed, 0);
}

#[test]
fn a_mismatch_counts_as_completed_and_is_listed() {
    let engine = TransferEngine::new(4, batch(&["a", "b", "c", "d"]));
    let (engine, _) = engine.dispatch();
    let (engine, _) = engine.dispatch();
    let (engine, _) = engine.dispatch();
    let (engine, _) = engine.dispatch();
    let (engine, _) = engine.complete(3, TransferStatus::Mismatched);
    let (engine, _) = engine.complete(0, TransferStatus::Verified);
    let (engine, _) = engine.complete(1, TransferStatus::Mismatched);
    let tally = engine.tally();
    assert_eq!(tally.total, 4);
    assert_eq!(tally.completed, 3);
    assert_eq!(tally.failed, 0);
    assert_eq!(tally.cancelled, 0);
    assert_eq!(tally.mismatched, vec![1, 3]);
    assert!(!engine.is_finished());
    let (engine, _) = engine.complete(2, TransferStatus::Failed);
    assert!(engine.is_finished());
    assert_eq!(engine.tally().failed, 1);
    assert_eq!(engine.tally().completed, 3);
}

#[test]
fn a_run_that_is_called_off_starts_nothing_more() {
    let engine = TransferEngine::new(1, batch(&["a", "b", "c"]));
    let (engine, _) = engine.dispatch();
    let engine = engine.cancel();
    assert!(engine.is_cancelled());
    assert_eq!(
        slots(&engine),
        vec![
            Slot::Active,
            Slot::Done(TransferStatus::Cancelled),
            Slot::Done(TransferStatus::Cancelled)
        ]
    );
    assert_eq!(engine.active(), 1);
    assert!(!engine.is_finished());
    let (engine, next) = engine.dispatch();
    assert_eq!(next, None);
    let (engine, recorded) = engine.complete(0, TransferStatus::Cancelled);
    assert!(recorded);
    assert!(engine.is_finished());
    let tally = engine.tally();
    assert_eq!(tally.cancelled, 3);
    assert_eq!(tally.completed, 0);
    assert_eq!(tally.failed, 0);
    let (engine, next) = engine.dispatch();
    assert_eq!(next, None);
    assert_eq!(engine.active(), 0);
}

#[test]
fn an_empty_batch_is_finished_at_once() {
    let engine = TransferEngine::new(4, Vec::new());
    assert!(engine.is_finished());
    assert_eq!(engine.len(), 0);
    let tally = engine.tally();
    assert_eq!(tally.total, 0);
    assert_eq!(tally.completed, 0);
    assert_eq!(tally.failed, 0);
    assert_eq!(tally.cancelled, 0);
    assert!(tally.mismatched.is_empty());
    let (engine, next) = engine.dispatch();
    assert_eq!(next, None);
    assert!(engine.is_finished());
}

#[test]
fn the_arguments_give_the_engine_its_limit() {
    let arguments = DownloadArguments {
        repository: "o/r".into(),
        tasks: 4,
        repository_local_path: None,
    };
    let engine = arguments.engine(batch(&["a", "b"]));
    assert_eq!(engine.limit(), 4);
    assert_eq!(engine.len(), 2);
    assert_eq!(engine.active(), 0);
}
