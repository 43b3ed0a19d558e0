use observatory::fanout::OutputFanout;

#[test]
fn test_default_fanout_writes_stdout_only() {
    let f = OutputFanout::new(false, false);
    assert!(f.writes_to_stdout());
    assert!(!f.writes_to_readers());
    assert_eq!(f.reader_count(), 0);
}

#[test]
fn test_secondary_without_tee_skips_stdout() {
    let f = OutputFanout::new(true, false);
    assert!(!f.writes_to_stdout());
    assert!(f.writes_to_readers());
}

#[test]
fn test_secondary_with_tee_writes_both() {
    let f = OutputFanout::new(true, true);
    assert!(f.writes_to_stdout());
    assert!(f.writes_to_readers());
}

#[test]
fn test_dead_reader_is_pruned_and_publishing_goes_on() {
    // Tee disabled, one reader connects, one event goes out, the reader
    // disconnects before the next event: the failed write evicts it and
    // the following publish proceeds against an empty reader set.
    let mut f = OutputFanout::new(true, false);
    f.accept_reader(7);
    assert_eq!(f.reader_count(), 1);
    assert!(f.writes_to_readers());

    // First publish: the one write succeeds.
    f.prune_failed(&vec![false]);
    assert_eq!(f.reader_count(), 1);

    // Second publish: the reader is gone, its write fails, it is evicted.
    f.prune_failed(&vec![true]);
    assert_eq!(f.reader_count(), 0);

    // A further publish has nowhere to broadcast but is still well-formed.
    assert!(f.writes_to_readers());
    f.prune_failed(&Vec::new());
    assert_eq!(f.reader_count(), 0);
}

#[test]
fn test_prune_keeps_survivors_in_order() {
    let mut f = OutputFanout::new(true, false);
    f.accept_reader(1);
    f.accept_reader(2);
    f.accept_reader(3);
    f.prune_failed(&vec![false, true, false]);
    assert_eq!(f.readers, vec![1, 3]);
}

#[test]
fn test_clear_readers_empties_the_set() {
    let mut f = OutputFanout::new(true, true);
    f.accept_reader(1);
    f.accept_reader(2);
    f.clear_readers();
    assert_eq!(f.reader_count(), 0);
}
