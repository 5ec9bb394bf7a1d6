use fast_check::pipeline::{DispatchOutcome, Job, Pipeline, RecvOutcome, SendOutcome};
use fast_check::rule::process_scan_outcome;

fn job(path: &str, content: &[u8]) -> Job {
    Job { path: path.to_string(), content: content.to_vec() }
}

fn recv_job(p: &mut Pipeline) -> Job {
    match p.recv() {
        RecvOutcome::Received(j) => j,
        _ => panic!("expected a queued job"),
    }
}

#[test]
fn backpressure_send_blocks_at_capacity_and_resumes_after_a_receive() {
    // Capacity 2: the third send is refused while both slots are taken,
    // and is accepted again as soon as a worker frees one.
    let mut p = Pipeline::new(2);
    assert!(matches!(p.try_send(job("/a", b"1")), SendOutcome::Sent));
    assert!(matches!(p.try_send(job("/b", b"2")), SendOutcome::Sent));
    assert!(matches!(p.try_send(job("/c", b"3")), SendOutcome::Full));
    assert!(matches!(p.try_send(job("/c", b"3")), SendOutcome::Full));
    let j = recv_job(&mut p);
    assert_eq!(j.path, "/a");
    assert!(matches!(p.try_send(job("/c", b"3")), SendOutcome::Sent));
    assert!(matches!(p.try_send(job("/d", b"4")), SendOutcome::Full));
}

#[test]
fn workers_terminate_exactly_when_the_closed_queue_drains() {
    // Clean termination: receive reports Finished only once the channel is
    // both closed and empty, and every queued job is still handed out first.
    let mut p = Pipeline::new(4);
    assert!(matches!(p.try_send(job("/a", b"1")), SendOutcome::Sent));
    assert!(matches!(p.try_send(job("/b", b"2")), SendOutcome::Sent));
    // Not closed, empty later; first: still open and non-empty.
    p.close();
    // Closed but not yet drained: jobs still come out, no early termination.
    let a = recv_job(&mut p);
    p.finish(a, None);
    let b = recv_job(&mut p);
    p.finish(b, None);
    // Closed and drained: every receive now says Finished.
    assert!(matches!(p.recv(), RecvOutcome::Finished));
    assert!(matches!(p.recv(), RecvOutcome::Finished));
}

#[test]
fn open_empty_queue_makes_a_worker_wait_not_terminate() {
    let mut p = Pipeline::new(1);
    assert!(matches!(p.recv(), RecvOutcome::Empty));
    p.close();
    assert!(matches!(p.recv(), RecvOutcome::Finished));
}

#[test]
fn a_result_is_emitted_exactly_for_nonempty_successful_scans() {
    let mut p = Pipeline::new(8);
    assert!(matches!(p.try_send(job("/hit", b"x")), SendOutcome::Sent));
    assert!(matches!(p.try_send(job("/clean", b"y")), SendOutcome::Sent));
    assert!(matches!(p.try_send(job("/broken", b"z")), SendOutcome::Sent));
    p.close();

    let j = recv_job(&mut p);
    p.finish(j, Some(vec!["rule_a".to_string(), "rule_b".to_string()]));
    let j = recv_job(&mut p);
    p.finish(j, Some(vec![])); // clean non-match: nothing observable
    let j = recv_job(&mut p);
    p.finish(j, None); // engine failure: logged by caller, skipped

    assert_eq!(p.results.len(), 1);
    assert_eq!(p.results[0].path, "/hit");
    assert_eq!(p.results[0].rule_ids, vec!["rule_a".to_string(), "rule_b".to_string()]);
}

#[test]
fn results_do_not_depend_on_the_order_workers_take_jobs() {
    // The same three jobs with the same outcomes, drained in queue order by
    // one "worker" and in a scrambled order by several: identical results.
    let outcomes: Vec<(&str, &[u8], Option<Vec<&str>>)> = vec![
        ("/a", b"1", Some(vec!["r1"])),
        ("/b", b"2", None),
        ("/c", b"3", Some(vec!["r2", "r3"])),
    ];

    let run = |order: Vec<usize>| -> Vec<(String, Vec<String>)> {
        let mut p = Pipeline::new(8);
        for (path, content, _) in &outcomes {
            assert!(matches!(p.try_send(job(path, content)), SendOutcome::Sent));
        }
        p.close();
        let mut held = Vec::new();
        while let RecvOutcome::Received(j) = p.recv() {
            held.push(j);
        }
        // Hand the held jobs back in the schedule's order.
        for i in order {
            let j = held.remove(i);
            let outcome = outcomes
                .iter()
                .find(|(path, _, _)| *path == j.path)
                .unwrap()
                .2
                .as_ref()
                .map(|ids| ids.iter().map(|s| s.to_string()).collect());
            p.finish(j, outcome);
        }
        let mut rs: Vec<(String, Vec<String>)> =
            p.results.iter().map(|m| (m.path.clone(), m.rule_ids.clone())).collect();
        rs.sort();
        rs
    };

    let one_worker = run(vec![0, 0, 0]);
    let scrambled = run(vec![2, 0, 0]);
    let reversed = run(vec![2, 1, 0]);
    assert_eq!(one_worker, scrambled);
    assert_eq!(one_worker, reversed);
    assert_eq!(one_worker.len(), 2);
}

#[test]
fn process_scan_outcome_is_exact() {
    let r = process_scan_outcome("/p".to_string(), Some(vec!["r1".to_string()])).unwrap();
    assert_eq!(r.path, "/p");
    assert_eq!(r.rule_ids, vec!["r1".to_string()]);
    assert!(process_scan_outcome("/p".to_string(), Some(vec![])).is_none());
    assert!(process_scan_outcome("/p".to_string(), None).is_none());
}

#[test]
fn dispatcher_skips_unreadable_files_and_blocks_on_a_full_queue() {
    let mut p = Pipeline::new(1);
    // A file that failed to read is skipped; the run continues.
    assert!(matches!(p.dispatch_step("/gone".to_string(), None), DispatchOutcome::Skipped));
    assert!(matches!(
        p.dispatch_step("/a".to_string(), Some(b"1".to_vec())),
        DispatchOutcome::Sent
    ));
    // Queue at capacity: the job comes back for a later retry.
    let blocked = p.dispatch_step("/b".to_string(), Some(b"2".to_vec()));
    let job = match blocked {
        DispatchOutcome::Blocked(j) => j,
        _ => panic!("expected the producer to block"),
    };
    assert_eq!(job.path, "/b");
    // A worker frees the slot; the same job now goes through.
    match p.recv() {
        RecvOutcome::Received(j) => p.finish(j, None),
        _ => panic!("expected a queued job"),
    }
    assert!(matches!(p.dispatch_step(job.path, Some(job.content)), DispatchOutcome::Sent));
}
