use ro11y::config::ExporterConfig;
use ro11y::delivery::{content_type, AfterPost, AfterWait, Delivery, Outcome, REQUEST_TIMEOUT_SECS};
use ro11y::exporter::{data_message, Batcher, ExportEvent, ExportMessage, Signal, Step};

fn config(batch_size: usize) -> ExporterConfig {
    ExporterConfig {
        traces_url: Some("http://127.0.0.1:1/v1/traces".to_string()),
        logs_url: Some("http://127.0.0.1:1/v1/logs".to_string()),
        metrics_url: None,
        channel_capacity: 16,
        batch_size,
        flush_interval_secs: 1,
        max_concurrent_exports: 4,
    }
}

fn data(signal: Signal, bytes: &[u8]) -> ExportEvent {
    ExportEvent::Message(data_message(signal, bytes.to_vec()))
}

fn bodies(step: &Step) -> Vec<(Signal, Vec<u8>)> {
    step.batches
        .iter()
        .map(|b| (b.signal, b.body().to_vec()))
        .collect()
}

#[test]
fn messages_carry_their_data() {
    match data_message(Signal::Logs, vec![0x0A, 0x00]) {
        ExportMessage::Data(Signal::Logs, bytes) => assert_eq!(&bytes[..], &[0x0A, 0x00]),
        _ => panic!("expected a logs message"),
    }
}

#[test]
fn a_full_batch_is_released_at_once() {
    let mut batcher = Batcher::new(&config(3));
    assert!(batcher.step(data(Signal::Traces, &[1])).batches.is_empty());
    assert!(batcher.step(data(Signal::Logs, &[9])).batches.is_empty());
    assert!(batcher.step(data(Signal::Traces, &[2, 3])).batches.is_empty());
    let step = batcher.step(data(Signal::Traces, &[4]));
    assert_eq!(bodies(&step), vec![(Signal::Traces, vec![1, 2, 3, 4])]);
    assert_eq!(step.batches[0].items.len(), 3);
    assert!(!step.flushed && !step.stop);
    let step = batcher.step(ExportEvent::Tick);
    assert_eq!(bodies(&step), vec![(Signal::Logs, vec![9])]);
    assert!(!step.flushed && !step.stop);
    assert!(batcher.step(ExportEvent::Tick).batches.is_empty());
}

#[test]
fn a_batch_of_one_does_not_wait() {
    let mut batcher = Batcher::new(&config(1));
    for n in 0..5u8 {
        let step = batcher.step(data(Signal::Logs, &[n]));
        assert_eq!(bodies(&step), vec![(Signal::Logs, vec![n])]);
    }
}

#[test]
fn flush_posts_what_is_pending() {
    let mut batcher = Batcher::new(&config(512));
    batcher.step(data(Signal::Logs, &[1]));
    batcher.step(data(Signal::Traces, &[2]));
    batcher.step(data(Signal::Logs, &[3]));
    let step = batcher.step(ExportEvent::Message(ExportMessage::Flush));
    assert_eq!(
        bodies(&step),
        vec![(Signal::Traces, vec![2]), (Signal::Logs, vec![1, 3])]
    );
    assert!(step.flushed);
    assert!(!step.stop);
    let again = batcher.step(ExportEvent::Message(ExportMessage::Flush));
    assert!(again.batches.is_empty());
    assert!(again.flushed);
}

#[test]
fn shutdown_and_a_closed_channel_drain() {
    for end in [
        ExportEvent::Message(ExportMessage::Shutdown),
        ExportEvent::Closed,
    ] {
        let mut batcher = Batcher::new(&config(10));
        batcher.step(data(Signal::Traces, &[5]));
        let step = batcher.step(end);
        assert_eq!(bodies(&step), vec![(Signal::Traces, vec![5])]);
        assert!(step.stop);
        assert!(!step.flushed);
    }
}

#[test]
fn a_disabled_signal_is_not_posted() {
    let mut batcher = Batcher::new(&config(1));
    assert!(batcher.step(data(Signal::Metrics, &[1])).batches.is_empty());
    let step = batcher.step(ExportEvent::Message(ExportMessage::Shutdown));
    assert!(step.batches.is_empty());
    let mut metrics = Batcher::new(&ExporterConfig {
        traces_url: None,
        logs_url: None,
        metrics_url: Some("u".to_string()),
        ..config(1)
    });
    assert!(metrics.step(data(Signal::Traces, &[1])).batches.is_empty());
    let step = metrics.step(data(Signal::Metrics, &[1, 2]));
    assert_eq!(bodies(&step), vec![(Signal::Metrics, vec![1, 2])]);
}

#[test]
fn nothing_is_lost_over_a_long_run() {
    let mut batcher = Batcher::new(&config(7));
    let mut sent: Vec<u8> = Vec::new();
    let mut got: Vec<u8> = Vec::new();
    for n in 0..200u8 {
        sent.push(n);
        let step = batcher.step(data(Signal::Traces, &[n]));
        for batch in &step.batches {
            assert!(!batch.items.is_empty() && batch.items.len() <= 7);
        }
        for (_, body) in bodies(&step) {
            got.extend_from_slice(&body);
        }
        if n % 50 == 3 {
            for (_, body) in bodies(&batcher.step(ExportEvent::Tick)) {
                got.extend_from_slice(&body);
            }
        }
    }
    for (_, body) in bodies(&batcher.step(ExportEvent::Closed)) {
        got.extend_from_slice(&body);
    }
    assert_eq!(got, sent);
}

#[test]
fn delivery_ends_at_the_first_success() {
    let mut delivery = Delivery::new("http://127.0.0.1:1/v1/traces");
    assert!(matches!(delivery.posted(Outcome::Delivered), AfterPost::Done));

    let mut delivery = Delivery::new("u");
    assert!(matches!(
        delivery.posted(Outcome::Failed("x".to_string())),
        AfterPost::Wait { millis: 100, .. }
    ));
    assert!(matches!(delivery.waited(), AfterWait::Post));
    assert!(matches!(delivery.posted(Outcome::Delivered), AfterPost::Done));
}

#[test]
fn delivery_backs_off_and_gives_up() {
    let mut delivery = Delivery::new("http://c/v1/logs");
    let expected = [
        (
            Outcome::Refused("503 Service Unavailable".to_string()),
            "pz-o11y: export attempt 1/3 to http://c/v1/logs failed: HTTP 503 Service Unavailable",
            100,
        ),
        (
            Outcome::Failed("connection refused".to_string()),
            "pz-o11y: export attempt 2/3 to http://c/v1/logs failed: connection refused",
            400,
        ),
        (
            Outcome::Refused("400 Bad Request".to_string()),
            "pz-o11y: export attempt 3/3 to http://c/v1/logs failed: HTTP 400 Bad Request",
            1600,
        ),
    ];
    let mut attempts = 0;
    for (outcome, text, wait) in expected {
        attempts += 1;
        match delivery.posted(outcome) {
            AfterPost::Wait { report, millis } => {
                assert_eq!(report, text);
                assert_eq!(millis, wait);
            }
            AfterPost::Done => panic!("expected a wait"),
        }
        match delivery.waited() {
            AfterWait::Post => assert!(attempts < 3),
            AfterWait::Drop { report } => {
                assert_eq!(attempts, 3);
                assert_eq!(report, "pz-o11y: dropping batch after 3 retries");
            }
        }
    }
}

#[test]
fn posts_are_protobuf() {
    assert_eq!(content_type(), "application/x-protobuf");
    assert_eq!(REQUEST_TIMEOUT_SECS, 10);
}
