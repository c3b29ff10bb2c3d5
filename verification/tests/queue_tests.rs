use verification_queue::config::{Config, VerifierSettings};
use verification_queue::item::{ImportError, Input, ParseOutcome, Status};
use verification_queue::queue::VerificationQueue;

// A block-like item that parses and verifies, with the difficulty the chain
// of dummy blocks carries.
fn good_block(n: u64) -> Input {
    Input {
        hash: 1000 + n,
        raw_hash: 2_000_000 + n,
        parent_hash: 999 + n,
        difficulty: 131072,
        size: 400,
        parse: ParseOutcome::Accepted,
        valid: true,
    }
}

fn get_good_dummy_block() -> Input {
    good_block(0)
}

fn get_good_dummy_block_seq(count: u64) -> Vec<Input> {
    (0..count).map(good_block).collect()
}

// create a test block queue.
// auto_scaling enables verifier adjustment.
fn get_test_queue(auto_scale: bool) -> VerificationQueue {
    let mut config = Config::default();
    config.verifier_settings.scale_verifiers = auto_scale;
    VerificationQueue::new(config)
}

fn get_test_config(num_verifiers: usize, is_auto_scale: bool) -> Config {
    let mut config = Config::default();
    config.verifier_settings.num_verifiers = num_verifiers;
    config.verifier_settings.scale_verifiers = is_auto_scale;
    config
}

// The readjustment runs once per READJUSTMENT_PERIOD housekeeping calls.
fn run_readjustment(queue: &mut VerificationQueue) {
    for _ in 0..12 {
        queue.collect_garbage();
    }
}

#[test]
fn can_be_created() {
    let _ = VerificationQueue::new(Config::default());
}

#[test]
fn can_import_blocks() {
    let mut queue = get_test_queue(false);
    if let Err(e) = queue.import(get_good_dummy_block()) {
        panic!("error importing block that is valid by definition({:?})", e.0);
    }
}

#[test]
fn returns_error_for_duplicates() {
    let mut queue = get_test_queue(false);
    if let Err(e) = queue.import(get_good_dummy_block()) {
        panic!("error importing block that is valid by definition({:?})", e.0);
    }

    let duplicate_import = queue.import(get_good_dummy_block());
    match duplicate_import {
        Err(e) => match e {
            (ImportError::AlreadyQueued, _) => {},
            _ => {
                panic!("must return AlreadyQueued error");
            },
        },
        Ok(_) => {
            panic!("must produce error");
        },
    }
}

#[test]
fn returns_total_difficulty() {
    let mut queue = get_test_queue(false);
    let block = get_good_dummy_block();
    let hash = block.hash;
    if let Err(e) = queue.import(block) {
        panic!("error importing block that is valid by definition({:?})", e.0);
    }
    queue.flush();
    assert_eq!(queue.total_difficulty(), 131072);
    queue.drain(10);
    assert_eq!(queue.total_difficulty(), 131072);
    queue.mark_as_good(&[hash]);
    assert_eq!(queue.total_difficulty(), 0);
}

#[test]
fn returns_ok_for_drained_duplicates() {
    let mut queue = get_test_queue(false);
    let block = get_good_dummy_block();
    let hash = block.hash;
    if let Err(e) = queue.import(block) {
        panic!("error importing block that is valid by definition({:?})", e.0);
    }
    queue.flush();
    queue.drain(10);
    queue.mark_as_good(&[hash]);

    if let Err(e) = queue.import(get_good_dummy_block()) {
        panic!("error importing block that has already been drained ({:?})", e.0);
    }
}

#[test]
fn returns_empty_once_finished() {
    let mut queue = get_test_queue(false);
    queue
        .import(get_good_dummy_block())
        .expect("error importing block that is valid by definition");
    queue.flush();
    queue.drain(1);

    assert!(queue.queue_info().is_empty());
}

#[test]
fn test_mem_limit() {
    let mut config = Config::default();
    config.max_mem_use = 16384;
    let mut queue = VerificationQueue::new(config);
    assert!(!queue.queue_info().is_full());
    let mut blocks = get_good_dummy_block_seq(50);
    for b in blocks.drain(..) {
        let _ = queue.import(b);
    }
    assert!(queue.queue_info().is_full());
}

#[test]
fn scaling_limits() {
    let max_verifiers = num_cpus::get();
    let mut queue = get_test_queue(true);
    queue.scale_verifiers(max_verifiers + 1);

    assert!(queue.num_verifiers() < max_verifiers + 1);

    queue.scale_verifiers(0);

    assert!(queue.num_verifiers() == 1);
}

#[test]
fn readjust_verifiers() {
    // start from a single active worker so the readjustment's effect is
    // observable whatever the machine's CPU count.
    let mut queue = VerificationQueue::new(get_test_config(1, true));
    assert_eq!(queue.num_verifiers(), 1);

    for block in get_good_dummy_block_seq(5000) {
        queue.import(block).expect("Block good by definition; qed");
    }

    // almost all unverified == bump verifier count.
    run_readjustment(&mut queue);
    let expected = if num_cpus::get() > 1 { 2 } else { 1 };
    assert_eq!(queue.num_verifiers(), expected);

    queue.flush();

    // nothing to verify == use minimum number of verifiers.
    run_readjustment(&mut queue);
    assert_eq!(queue.num_verifiers(), 1);
}

#[test]
fn worker_threads_honor_specified_number_without_scaling() {
    let config = get_test_config(1, false);
    let queue = VerificationQueue::new(config);

    assert_eq!(queue.num_verifiers(), 1);
}

#[test]
fn worker_threads_specified_to_zero_should_set_to_one() {
    let config = get_test_config(0, false);
    let queue = VerificationQueue::new(config);

    assert_eq!(queue.num_verifiers(), 1);
}

#[test]
fn worker_threads_should_only_accept_max_number_cpus() {
    let config = get_test_config(10_000, false);
    let queue = VerificationQueue::new(config);
    let num_cpus = num_cpus::get();

    assert_eq!(queue.num_verifiers(), num_cpus);
}

#[test]
fn worker_threads_scaling_with_specifed_num_of_workers() {
    let num_cpus = num_cpus::get();
    // only run the test with at least 2 CPUs
    if num_cpus > 1 {
        let config = get_test_config(num_cpus - 1, true);
        let mut queue = VerificationQueue::new(config);
        queue.scale_verifiers(num_cpus);

        assert_eq!(queue.num_verifiers(), num_cpus);
    }
}

#[test]
fn single_good_block_round_trip() {
    let mut queue = get_test_queue(false);
    let block = get_good_dummy_block();
    let hash = queue.import(block).expect("valid by definition");
    assert_eq!(hash, block.hash);
    queue.flush();
    let drained = queue.drain(10);
    assert_eq!(drained.len(), 1);
    assert_eq!(drained[0].hash, block.hash);
    assert_eq!(drained[0].difficulty, 131072);
    queue.mark_as_good(&[hash]);
    assert_eq!(queue.total_difficulty(), 0);
}

#[test]
fn failed_verification_drains_nothing() {
    let mut queue = get_test_queue(false);
    let mut block = get_good_dummy_block();
    block.valid = false;
    queue.import(block).expect("parses fine");
    queue.flush();
    assert_eq!(queue.drain(10).len(), 0);
    // the hash is condemned, but its processing entry stays until the
    // caller acknowledges, so it still reports as queued.
    assert_eq!(queue.status(block.hash), Status::Queued);
    queue.mark_as_bad(&[block.hash]);
    assert_eq!(queue.status(block.hash), Status::Bad);
    assert_eq!(queue.total_difficulty(), 0);
}

#[test]
fn status_is_exclusive() {
    let mut queue = get_test_queue(false);
    let good = good_block(1);
    queue.import(good).expect("valid by definition");
    assert_eq!(queue.status(good.hash), Status::Queued);

    let mut bad = good_block(2);
    bad.parse = ParseOutcome::Invalid;
    assert!(queue.import(bad).is_err());
    assert_eq!(queue.status(bad.hash), Status::Bad);

    assert_eq!(queue.status(good_block(3).hash), Status::Unknown);
}

#[test]
fn temporarily_invalid_is_not_condemned() {
    let mut queue = get_test_queue(false);
    let mut block = get_good_dummy_block();
    block.parse = ParseOutcome::TemporarilyInvalid;
    match queue.import(block) {
        Err((ImportError::TemporarilyInvalid, Some(returned))) => {
            assert_eq!(returned.hash, block.hash);
        },
        _ => panic!("must reject as temporarily invalid and hand the input back"),
    }
    // Not condemned: the same item is accepted once it parses.
    block.parse = ParseOutcome::Accepted;
    queue.import(block).expect("never condemned");
}

#[test]
fn malformed_body_condemns_raw_hash_only() {
    let mut queue = get_test_queue(false);
    let mut block = good_block(4);
    block.parse = ParseOutcome::MalformedBody;
    match queue.import(block) {
        Err((ImportError::MalformedBody, Some(_))) => {},
        _ => panic!("must reject a malformed body"),
    }
    // The same raw bytes are rejected early.
    let mut again = good_block(5);
    again.raw_hash = block.raw_hash;
    match queue.import(again) {
        Err((ImportError::KnownBad, Some(_))) => {},
        _ => panic!("the raw hash must be condemned"),
    }
    // The canonical hash itself is not condemned: the header may be fine.
    let mut refetched = good_block(4);
    refetched.raw_hash = 3_000_000;
    queue.import(refetched).expect("the header hash is not condemned");
}

#[test]
fn condemned_parent_condemns_child() {
    let mut queue = get_test_queue(false);
    let mut bad = good_block(6);
    bad.parse = ParseOutcome::Invalid;
    assert!(queue.import(bad).is_err());

    let mut child = good_block(7);
    child.parent_hash = bad.hash;
    match queue.import(child) {
        Err((ImportError::KnownBad, Some(_))) => {},
        _ => panic!("a child of a condemned parent must be rejected"),
    }
    assert_eq!(queue.status(child.hash), Status::Bad);
}

#[test]
fn mark_as_bad_prunes_verified_descendants() {
    let mut queue = get_test_queue(false);
    let parent = good_block(8);
    let mut child = good_block(9);
    child.parent_hash = parent.hash;
    let mut grandchild = good_block(10);
    grandchild.parent_hash = child.hash;
    queue.import(parent).expect("valid by definition");
    queue.import(child).expect("valid by definition");
    queue.import(grandchild).expect("valid by definition");
    queue.flush();

    // the chain takes the parent and rejects it.
    let drained = queue.drain(1);
    assert_eq!(drained.len(), 1);
    assert_eq!(drained[0].hash, parent.hash);
    queue.mark_as_bad(&[parent.hash]);

    // both descendants are pruned from the verified stage transitively.
    assert_eq!(queue.drain(10).len(), 0);
    assert_eq!(queue.status(parent.hash), Status::Bad);
    assert_eq!(queue.status(child.hash), Status::Bad);
    assert_eq!(queue.status(grandchild.hash), Status::Bad);
    assert_eq!(queue.total_difficulty(), 0);
}

#[test]
fn out_of_order_completion_commits_in_import_order() {
    let mut queue = get_test_queue(false);
    let a = good_block(11);
    let b = good_block(12);
    let c = good_block(13);
    queue.import(a).expect("valid by definition");
    queue.import(b).expect("valid by definition");
    queue.import(c).expect("valid by definition");

    let ia = queue.start_verifying().expect("a waits");
    let ib = queue.start_verifying().expect("b waits");
    let ic = queue.start_verifying().expect("c waits");

    // completions arrive in reverse order; nothing may overtake the head.
    queue.finish_verifying(ic);
    queue.finish_verifying(ib);
    assert_eq!(queue.drain(10).len(), 0);
    queue.finish_verifying(ia);

    let drained = queue.drain(10);
    let hashes: Vec<u64> = drained.iter().map(|v| v.hash).collect();
    assert_eq!(hashes, vec![a.hash, b.hash, c.hash]);
}

#[test]
fn mark_as_good_empty_reports_emptiness() {
    let mut queue = get_test_queue(false);
    assert!(queue.mark_as_good(&[]));
    let block = get_good_dummy_block();
    queue.import(block).expect("valid by definition");
    assert!(!queue.mark_as_good(&[]));
    assert_eq!(queue.total_difficulty(), 131072);
    assert!(queue.mark_as_good(&[block.hash]));
}

#[test]
fn clear_is_idempotent() {
    let mut queue = get_test_queue(false);
    for block in get_good_dummy_block_seq(3) {
        queue.import(block).expect("valid by definition");
    }
    queue.clear();
    assert!(queue.queue_info().is_empty());
    assert_eq!(queue.total_difficulty(), 0);
    queue.clear();
    assert!(queue.queue_info().is_empty());
    assert_eq!(queue.total_difficulty(), 0);
}

#[test]
fn drain_zero_and_empty() {
    let mut queue = get_test_queue(false);
    queue.import(get_good_dummy_block()).expect("valid by definition");
    queue.flush();
    assert_eq!(queue.drain(0).len(), 0);
    queue.drain(10);
    assert_eq!(queue.drain(10).len(), 0);
    assert!(!queue.is_signalled());
}

#[test]
fn signal_fires_once_per_epoch_and_rearms() {
    let mut queue = get_test_queue(false);
    queue.import(good_block(14)).expect("valid by definition");
    queue.import(good_block(15)).expect("valid by definition");

    let first = queue.start_verifying().expect("one waits");
    let second = queue.start_verifying().expect("another waits");
    // the first head commit notifies; the second completion finds the
    // signal already armed.
    assert!(queue.finish_verifying(first));
    assert!(!queue.finish_verifying(second));

    // a partial drain leaves items, so the signal is re-armed.
    assert_eq!(queue.drain(1).len(), 1);
    assert!(queue.is_signalled());
    assert_eq!(queue.drain(1).len(), 1);
    assert!(!queue.is_signalled());
}

#[test]
fn parents_are_tracked_while_children_are_in_flight() {
    let mut queue = get_test_queue(false);
    let mut first = good_block(16);
    let mut second = good_block(17);
    first.parent_hash = 4242;
    second.parent_hash = 4242;
    queue.import(first).expect("valid by definition");
    queue.import(second).expect("valid by definition");

    assert_eq!(queue.parent_hashes(), vec![4242]);
    queue.mark_as_good(&[first.hash]);
    assert_eq!(queue.parent_hashes(), vec![4242]);
    queue.mark_as_good(&[second.hash]);
    assert_eq!(queue.parent_hashes(), Vec::<u64>::new());
}

#[test]
fn fork_check_consults_every_parent() {
    let mut queue = get_test_queue(false);
    let mut block = good_block(18);
    block.parent_hash = 7777;
    queue.import(block).expect("valid by definition");

    // the chain knows no route from the parent: everything in flight is on
    // a fork.
    assert!(queue.is_processing_fork(&[]));
    // the chain knows the parent: not a fork.
    assert!(!queue.is_processing_fork(&[7777]));
}

#[test]
fn close_silences_the_signal() {
    let mut queue = get_test_queue(false);
    queue.import(get_good_dummy_block()).expect("valid by definition");
    queue.close();
    assert!(queue.queue_info().is_empty());
    // after closing, a drain never re-arms the signal.
    assert_eq!(queue.drain(10).len(), 0);
    assert!(!queue.is_signalled());
}

#[test]
fn default_settings_use_the_machine() {
    let settings = VerifierSettings::default();
    assert!(!settings.scale_verifiers);
    assert_eq!(settings.num_verifiers, num_cpus::get());
    let config = Config::default();
    assert_eq!(config.max_queue_size, 30000);
    assert_eq!(config.max_mem_use, 50 * 1024 * 1024);
}
