use fingerprints::dispatch::{step, Action, Dispatcher, Event, Phase, DEFAULT_WORKERS};

#[test]
fn default_worker_count() {
    assert_eq!(DEFAULT_WORKERS, 6);
}

#[test]
fn a_run_goes_through_every_phase_in_order() {
    let mut dispatcher = Dispatcher::new();
    assert_eq!(dispatcher.phase(), Phase::Traversing);
    assert_eq!(dispatcher.handle(Event::FileDiscovered), Action::SubmitJob);
    assert_eq!(dispatcher.handle(Event::FileDiscovered), Action::SubmitJob);
    assert_eq!(dispatcher.phase(), Phase::Traversing);
    assert_eq!(dispatcher.handle(Event::TraversalFinished), Action::DrainPool);
    assert_eq!(dispatcher.phase(), Phase::Draining);
    assert_eq!(dispatcher.handle(Event::PoolDrained), Action::SubmitTermination);
    assert_eq!(dispatcher.phase(), Phase::Terminating);
    assert!(!dispatcher.is_done());
    assert_eq!(dispatcher.handle(Event::SignalObserved), Action::Finish);
    assert_eq!(dispatcher.phase(), Phase::Done);
    assert!(dispatcher.is_done());
}

#[test]
fn an_empty_tree_still_terminates() {
    let mut dispatcher = Dispatcher::new();
    assert_eq!(dispatcher.handle(Event::TraversalFinished), Action::DrainPool);
    assert_eq!(dispatcher.handle(Event::PoolDrained), Action::SubmitTermination);
    assert_eq!(dispatcher.handle(Event::SignalObserved), Action::Finish);
    assert!(dispatcher.is_done());
}

#[test]
fn events_out_of_turn_are_ignored() {
    assert_eq!(step(Phase::Traversing, Event::PoolDrained), (Phase::Traversing, Action::Ignore));
    assert_eq!(step(Phase::Traversing, Event::SignalObserved), (Phase::Traversing, Action::Ignore));
    assert_eq!(step(Phase::Draining, Event::FileDiscovered), (Phase::Draining, Action::Ignore));
    assert_eq!(step(Phase::Draining, Event::TraversalFinished), (Phase::Draining, Action::Ignore));
    assert_eq!(step(Phase::Terminating, Event::PoolDrained), (Phase::Terminating, Action::Ignore));
    assert_eq!(step(Phase::Terminating, Event::FileDiscovered), (Phase::Terminating, Action::Ignore));
    assert_eq!(step(Phase::Done, Event::SignalObserved), (Phase::Done, Action::Ignore));
    assert_eq!(step(Phase::Done, Event::FileDiscovered), (Phase::Done, Action::Ignore));
}

#[test]
fn the_signal_is_submitted_once_on_any_event_order() {
    let all = [
        Event::FileDiscovered,
        Event::TraversalFinished,
        Event::PoolDrained,
        Event::SignalObserved,
    ];
    for a in all {
        for b in all {
            for c in all {
                for d in all {
                    for e in all {
                        let mut dispatcher = Dispatcher::new();
                        let mut signals = 0;
                        let mut jobs_after_signal = 0;
                        for event in [a, b, c, d, e] {
                            match dispatcher.handle(event) {
                                Action::SubmitTermination => signals += 1,
                                Action::SubmitJob if signals > 0 => jobs_after_signal += 1,
                                _ => {}
                            }
                        }
                        assert!(signals <= 1);
                        assert_eq!(jobs_after_signal, 0);
                        if dispatcher.is_done() {
                            assert_eq!(signals, 1);
                        }
                    }
                }
            }
        }
    }
}

#[test]
fn every_file_found_while_traversing_becomes_a_job() {
    let mut dispatcher = Dispatcher::new();
    let files = vec!["r/a".to_string(), "r/b".to_string(), "r/c".to_string()];
    assert_eq!(dispatcher.discover(files.clone()), files);
    assert_eq!(dispatcher.phase(), Phase::Traversing);
    assert!(dispatcher.discover(Vec::new()).is_empty());
    assert_eq!(dispatcher.phase(), Phase::Traversing);
}

#[test]
fn nothing_becomes_a_job_once_the_traversal_has_finished() {
    let mut dispatcher = Dispatcher::new();
    dispatcher.handle(Event::TraversalFinished);
    assert!(dispatcher.discover(vec!["late".to_string()]).is_empty());
    assert_eq!(dispatcher.phase(), Phase::Draining);
    dispatcher.handle(Event::PoolDrained);
    assert!(dispatcher.discover(vec!["later".to_string()]).is_empty());
    assert_eq!(dispatcher.phase(), Phase::Terminating);
}
