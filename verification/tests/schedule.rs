use fmtwalk::bus::{Bus, MessageBus, WorkSource};
use fmtwalk::report::{conclude, Message};
use fmtwalk::schedule::{pool_for, post, worker_count, Pool, Stage, Step, WalkError, Worker};
use fmtwalk::state::FmtState;
use fmtwalk::traverse::WorkItem;

fn item(n: usize) -> WorkItem {
    WorkItem { path: format!("file{}.yar", n), depth: 0, index: n }
}

fn source_of(count: usize) -> WorkSource {
    let mut source: WorkSource = Bus::new(count);
    for n in 0..count {
        source.send(item(n)).unwrap();
    }
    source.close();
    source
}

/// Runs `workers` workers in turns over the source and returns, for each
/// worker, what it was told to do.
fn run_pool(workers: usize, source: &mut WorkSource) -> Vec<Vec<Step>> {
    let mut pool: Vec<Worker> = (0..workers).map(|_| Worker::new()).collect();
    let mut logs: Vec<Vec<Step>> = (0..workers).map(|_| Vec::new()).collect();
    loop {
        let mut busy = false;
        for (worker, log) in pool.iter_mut().zip(logs.iter_mut()) {
            match worker.step(source) {
                Step::Stop => {},
                step => {
                    busy = true;
                    log.push(step);
                },
            }
        }
        if !busy {
            return logs;
        }
    }
}

#[test]
fn worker_count_prefers_the_request_over_the_processors() {
    assert_eq!(worker_count(Some(4), 16), 4);
    assert_eq!(worker_count(Some(1), 16), 1);
    assert_eq!(worker_count(Some(255), 2), 255);
    assert_eq!(worker_count(None, 16), 16);
    assert_eq!(worker_count(None, 1), 1);
    assert_eq!(worker_count(None, 0), 1);
    assert_eq!(worker_count(Some(0), 8), 1);
}

#[test]
fn one_worker_runs_on_the_calling_thread() {
    assert_eq!(pool_for(1), Pool::Serial);
    assert_eq!(pool_for(0), Pool::Serial);
    assert_eq!(pool_for(2), Pool::Parallel(2));
    assert_eq!(pool_for(8), Pool::Parallel(8));
}

#[test]
fn worker_is_initialised_then_works_then_is_finalised() {
    let mut source = source_of(2);
    let mut worker = Worker::new();
    assert_eq!(worker.stage, Stage::Fresh);
    assert!(matches!(worker.step(&mut source), Step::Init));
    assert_eq!(source.len(), 2);
    assert_eq!(worker.stage, Stage::Running);
    assert!(matches!(worker.step(&mut source), Step::Action(found) if found.path == "file0.yar"));
    assert!(matches!(worker.step(&mut source), Step::Action(found) if found.path == "file1.yar"));
    assert_eq!(worker.claimed, 2);
    assert!(matches!(worker.step(&mut source), Step::Finalize));
    assert_eq!(worker.stage, Stage::Finished);
    assert!(matches!(worker.step(&mut source), Step::Stop));
    assert!(matches!(worker.step(&mut source), Step::Stop));
    assert_eq!(worker.claimed, 2);
}

#[test]
fn worker_waits_while_the_source_is_open_and_empty() {
    let mut source: WorkSource = Bus::new(2);
    let mut worker = Worker::new();
    assert!(matches!(worker.step(&mut source), Step::Init));
    assert!(matches!(worker.step(&mut source), Step::Wait));
    assert_eq!(worker.stage, Stage::Running);
    source.send(item(7)).unwrap();
    assert!(matches!(worker.step(&mut source), Step::Action(found) if found.index == 7));
    assert!(matches!(worker.step(&mut source), Step::Wait));
    source.close();
    assert!(matches!(worker.step(&mut source), Step::Finalize));
}

#[test]
fn ten_files_and_four_workers_make_ten_actions() {
    let mut source = source_of(10);
    let logs = run_pool(4, &mut source);
    let mut seen: Vec<String> = Vec::new();
    for log in &logs {
        assert!(matches!(log.first(), Some(Step::Init)));
        assert!(matches!(log.last(), Some(Step::Finalize)));
        assert_eq!(log.iter().filter(|step| matches!(step, Step::Init)).count(), 1);
        assert_eq!(log.iter().filter(|step| matches!(step, Step::Finalize)).count(), 1);
        for step in log {
            if let Step::Action(found) = step {
                seen.push(found.path.clone());
            }
        }
    }
    assert_eq!(seen.len(), 10);
    seen.sort();
    seen.dedup();
    assert_eq!(seen.len(), 10);
    let mut expected: Vec<String> = (0..10).map(|n| format!("file{}.yar", n)).collect();
    expected.sort();
    assert_eq!(seen, expected);
    assert!(source.is_empty());
}

#[test]
fn counts_do_not_depend_on_the_number_of_workers() {
    let mut totals = Vec::new();
    for workers in [1, 8] {
        let mut source = source_of(25);
        let logs = run_pool(workers, &mut source);
        let mut state = FmtState::new(false);
        for log in logs.iter().rev() {
            for step in log {
                if let Step::Action(found) = step {
                    let result = match found.index % 3 {
                        0 => Ok(false),
                        1 => Ok(true),
                        _ => Err(fmtwalk::report::ActionError::plain("bad".to_string())),
                    };
                    conclude(&mut state, &found.path, &result, false);
                }
            }
        }
        totals.push((state.files_ok, state.files_modified, state.errors));
    }
    assert_eq!(totals[0], (9, 8, 8));
    assert_eq!(totals[0], totals[1]);
}

#[test]
fn post_tells_a_full_bus_from_a_lost_reporter() {
    let mut bus: MessageBus = Bus::new(1);
    assert!(matches!(post(&mut bus, Message::Info("one".to_string())), Ok(None)));
    let back = post(&mut bus, Message::Info("two".to_string()));
    assert!(matches!(back, Ok(Some(Message::Info(text))) if text == "two"));
    assert_eq!(bus.len(), 1);
    bus.close();
    assert_eq!(post(&mut bus, Message::Info("three".to_string())).unwrap_err(), WalkError::Disconnected);
}
