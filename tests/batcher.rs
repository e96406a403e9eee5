use photo_archive_sync::batcher::{simulate_batches, EventBatcher, TimedEvent, FLUSH_INTERVAL_MS};
use photo_archive_sync::events::{SynchronizationEvent, SynchronizationEventJson};

fn progress(count: u64) -> SynchronizationEvent {
    SynchronizationEvent::ScanProgress { count }
}

fn timed(at: u64, count: u64) -> TimedEvent {
    TimedEvent { at, event: progress(count) }
}

fn counts(batch: &[SynchronizationEventJson]) -> Vec<Option<u64>> {
    batch
        .iter()
        .map(|e| match e {
            SynchronizationEventJson::ScanProgress { count } => Some(*count),
            _ => None,
        })
        .collect()
}

#[test]
fn burst_then_close_gives_one_batch() {
    let batches = simulate_batches(0, vec![timed(0, 1), timed(50, 2), timed(100, 3)], 150);
    assert_eq!(batches.len(), 1);
    assert!(batches[0].at >= 500);
    assert_eq!(counts(&batches[0].events), vec![Some(1), Some(2), Some(3), None]);
    assert!(matches!(batches[0].events[3], SynchronizationEventJson::Completed));
}

#[test]
fn silent_producer_still_completes() {
    let batches = simulate_batches(1000, vec![], 1000);
    assert_eq!(batches.len(), 1);
    assert_eq!(batches[0].at, 1500);
    assert_eq!(batches[0].events.len(), 1);
    assert!(matches!(batches[0].events[0], SynchronizationEventJson::Completed));
}

#[test]
fn batches_are_spaced_and_keep_order() {
    let events: Vec<TimedEvent> = (0..40u64).map(|i| timed(i * 60, i)).collect();
    let batches = simulate_batches(0, events, 2400);
    let mut previous = 0u64;
    let mut all = Vec::new();
    for (i, b) in batches.iter().enumerate() {
        assert!(b.at >= previous + FLUSH_INTERVAL_MS, "batch {i} too early");
        previous = b.at;
        all.extend(counts(&b.events));
    }
    let mut expected: Vec<Option<u64>> = (0..40u64).map(Some).collect();
    expected.push(None);
    assert_eq!(all, expected);
    let completed = batches
        .iter()
        .flat_map(|b| b.events.iter())
        .filter(|e| matches!(e, SynchronizationEventJson::Completed))
        .count();
    assert_eq!(completed, 1);
    assert!(matches!(batches.last().unwrap().events.last(), Some(SynchronizationEventJson::Completed)));
}

#[test]
fn late_event_flushes_at_the_interval_boundary() {
    let batches = simulate_batches(0, vec![timed(499, 1), timed(500, 2), timed(700, 3)], 2000);
    assert_eq!(batches.len(), 2);
    assert_eq!(batches[0].at, 500);
    assert_eq!(counts(&batches[0].events), vec![Some(1), Some(2)]);
    assert_eq!(batches[1].at, 2000);
    assert_eq!(counts(&batches[1].events), vec![Some(3), None]);
}

#[test]
fn stepwise_batcher_flushes_and_waits() {
    let mut b = EventBatcher::new(100);
    assert!(b.on_event(progress(1), 300).is_none());
    let batch = b.on_event(progress(2), 600).expect("interval elapsed");
    assert_eq!(counts(&batch), vec![Some(1), Some(2)]);
    assert!(b.on_event(progress(3), 800).is_none());
    assert_eq!(b.close(900), 200);
    let last = b.finish();
    assert_eq!(counts(&last), vec![Some(3), None]);
}

#[test]
fn close_after_interval_does_not_wait() {
    let mut b = EventBatcher::new(0);
    assert_eq!(b.close(10_000), 0);
    let last = b.finish();
    assert_eq!(last.len(), 1);
}

#[test]
fn events_convert_to_their_envelopes() {
    let stored = SynchronizationEventJson::from(SynchronizationEvent::Stored {
        src: "/a".to_string(),
        dst: "/b".to_string(),
        generated: true,
    });
    assert!(matches!(&stored, SynchronizationEventJson::Stored { src, dst, generated: true } if src == "/a" && dst == "/b"));
    assert_eq!(stored.event_type(), "stored");
    let done = SynchronizationEventJson::from(SynchronizationEvent::ScanCompleted { count: 7 });
    assert!(matches!(done, SynchronizationEventJson::ScanComplete { count: 7 }));
    assert_eq!(done.event_type(), "scan-complete");
    let skipped = SynchronizationEventJson::from(SynchronizationEvent::Skipped {
        src: "/a".to_string(),
        existing: "/c".to_string(),
    });
    assert_eq!(skipped.event_type(), "skipped");
    let errored = SynchronizationEventJson::from(SynchronizationEvent::Errored {
        src: "/a".to_string(),
        cause: "bad".to_string(),
    });
    assert_eq!(errored.event_type(), "errored");
    assert_eq!(SynchronizationEventJson::from(progress(1)).event_type(), "scan-progress");
    assert_eq!(SynchronizationEventJson::Completed.event_type(), "completed");
}
