use tracing_fluentd::fluent::{Record, Value};
use tracing_fluentd::mailbox::{mailbox, MailboxReceiver, TryRecv};
use tracing_fluentd::wire::{encode_message, TimeFormat};
use tracing_fluentd::worker::{Action, Event, Message, Phase, Worker};

fn numbered_record(number: u64) -> Record {
    let mut record = Record::with_timestamp(number, 0);
    record.insert("n".to_owned(), Value::Uint(number));
    record
}

/// Performs receive actions until the worker wants something else.
fn drive_fill(worker: &mut Worker, receiver: &MailboxReceiver) {
    loop {
        match worker.action() {
            Action::RecvBlocking => match receiver.recv() {
                Some(Message::Record(record)) => worker.step(Event::Received(record)),
                Some(Message::Terminate) | None => worker.step(Event::MailboxClosed),
            },
            Action::RecvNonBlocking => match receiver.try_recv() {
                TryRecv::Item(Message::Record(record)) => worker.step(Event::Received(record)),
                TryRecv::Item(Message::Terminate) | TryRecv::Closed => {
                    worker.step(Event::MailboxClosed)
                },
                TryRecv::Empty => worker.step(Event::MailboxEmpty),
            },
            _ => return,
        }
    }
}

fn batch_numbers(worker: &Worker) -> Vec<u64> {
    worker.batch.entries.iter().map(|record| record.secs).collect()
}

#[test]
fn backlog_forms_a_single_batch() {
    // 15 records queued before the worker starts, cap 10: the first batch
    // assembly takes all 15 — the cap only bounds the blocking phase.
    let (sender, receiver) = mailbox();
    for number in 1..=15u64 {
        sender.send(Message::Record(numbered_record(number)));
    }
    let mut worker = Worker::new("rust", 10);
    drive_fill(&mut worker, &receiver);
    assert_eq!(worker.action(), Action::Connect);
    assert_eq!(worker.batch.len(), 15);
    assert_eq!(batch_numbers(&worker), (1..=15).collect::<Vec<u64>>());
    assert!(matches!(receiver.try_recv(), TryRecv::Empty));
}

#[test]
fn encoded_batch_keeps_producer_order() {
    // records enqueued by one producer appear in the encoded batch in the
    // same relative order
    let (sender, receiver) = mailbox();
    for number in 1..=15u64 {
        sender.send(Message::Record(numbered_record(number)));
    }
    let mut worker = Worker::new("rust", 10);
    drive_fill(&mut worker, &receiver);

    let bytes = encode_message(&worker.batch, TimeFormat::Seconds).expect("encodable");
    let decoded = rmp_serde::from_slice::<rmpv::Value>(&bytes).expect("well-formed bytes");
    match &decoded {
        rmpv::Value::Array(parts) => match &parts[1] {
            rmpv::Value::Array(records) => {
                let stamps: Vec<rmpv::Value> = records
                    .iter()
                    .map(|record| match record {
                        rmpv::Value::Array(record_parts) => record_parts[0].clone(),
                        other => panic!("record is {:?}", other),
                    })
                    .collect();
                let expected: Vec<rmpv::Value> = (1..=15u64)
                    .map(|number| rmpv::Value::Integer(number.into()))
                    .collect();
                assert_eq!(stamps, expected);
            },
            other => panic!("records are {:?}", other),
        },
        other => panic!("message is {:?}", other),
    }
}

#[test]
fn retry_preserves_batch_across_cycles() {
    // the factory fails twice in the first delivery cycle and succeeds on
    // its third call in the second cycle: both cycles' records reach the
    // write, in order
    let (sender, receiver) = mailbox();
    sender.send(Message::Record(numbered_record(1)));
    let mut worker = Worker::new("rust", 1);
    drive_fill(&mut worker, &receiver);
    assert_eq!(worker.action(), Action::Connect);
    worker.step(Event::ConnectFailed);
    assert_eq!(worker.action(), Action::Sleep);
    worker.step(Event::Slept);
    assert_eq!(worker.action(), Action::Connect);
    worker.step(Event::ConnectFailed);

    // back to accumulating with the batch intact
    assert_eq!(worker.batch.len(), 1);
    sender.send(Message::Record(numbered_record(2)));
    drive_fill(&mut worker, &receiver);
    assert_eq!(worker.action(), Action::Connect);
    worker.step(Event::Connected);
    assert_eq!(worker.action(), Action::Write);
    assert_eq!(batch_numbers(&worker), vec![1, 2]);

    worker.step(Event::WriteSucceeded);
    assert_eq!(worker.batch.len(), 0);
    assert_eq!(worker.action(), Action::RecvBlocking);
}

#[test]
fn write_failure_keeps_batch_and_drops_connection() {
    let (sender, receiver) = mailbox();
    sender.send(Message::Record(numbered_record(1)));
    let mut worker = Worker::new("rust", 1);
    drive_fill(&mut worker, &receiver);
    worker.step(Event::Connected);
    assert_eq!(worker.action(), Action::Write);
    worker.step(Event::WriteFailed);
    assert_eq!(worker.batch.len(), 1);
    assert!(!worker.has_conn);
}

#[test]
fn termination_flush_delivers_pending_batch() {
    // termination with a non-empty batch and a factory succeeding on its
    // second call: the batch is written before the worker exits
    let (sender, receiver) = mailbox();
    sender.send(Message::Record(numbered_record(7)));
    sender.send(Message::Terminate);
    let mut worker = Worker::new("rust", 1);
    drive_fill(&mut worker, &receiver);
    // the record was collected and the terminate signal consumed: draining
    assert!(matches!(worker.phase, Phase::DrainConnect { attempts: 3, second: false }));
    worker.step(Event::ConnectFailed);
    assert_eq!(worker.action(), Action::Sleep);
    worker.step(Event::Slept);
    worker.step(Event::Connected);
    assert_eq!(worker.action(), Action::Write);
    assert_eq!(batch_numbers(&worker), vec![7]);
    worker.step(Event::WriteSucceeded);
    assert_eq!(worker.action(), Action::Exit);
}

#[test]
fn termination_with_dead_factory_gives_up_after_three_attempts() {
    let (sender, receiver) = mailbox();
    sender.send(Message::Record(numbered_record(7)));
    sender.send(Message::Terminate);
    let mut worker = Worker::new("rust", 1);
    drive_fill(&mut worker, &receiver);
    assert!(matches!(worker.phase, Phase::DrainConnect { attempts: 3, second: false }));

    let mut factory_calls = 0;
    loop {
        match worker.action() {
            Action::Connect => {
                factory_calls += 1;
                worker.step(Event::ConnectFailed);
            },
            Action::Sleep => worker.step(Event::Slept),
            Action::Write => panic!("no write must be requested when the factory is dead"),
            Action::Exit => break,
            other => panic!("unexpected action {:?}", other),
        }
    }
    // three delivery attempts, two factory calls each
    assert_eq!(factory_calls, 6);
    // the batch was discarded, not delivered
    assert_eq!(worker.batch.len(), 1);
}

#[test]
fn empty_batch_terminates_without_attempts() {
    let (sender, receiver) = mailbox();
    sender.send(Message::Terminate);
    let mut worker = Worker::new("rust", 10);
    drive_fill(&mut worker, &receiver);
    assert_eq!(worker.action(), Action::Exit);
}

#[test]
fn closed_mailbox_acts_as_termination() {
    let (sender, receiver) = mailbox();
    sender.send(Message::Record(numbered_record(1)));
    drop(sender);
    assert!(matches!(receiver.try_recv(), TryRecv::Item(Message::Record(_))));
    assert!(matches!(receiver.try_recv(), TryRecv::Closed));
    assert!(receiver.recv().is_none());
}

#[test]
fn cloned_senders_feed_the_same_mailbox() {
    let (sender, receiver) = mailbox();
    let second = sender.duplicate();
    second.send(Message::Record(numbered_record(5)));
    match receiver.try_recv() {
        TryRecv::Item(Message::Record(record)) => assert_eq!(record.secs, 5),
        other => panic!(
            "expected the record sent through the clone, got {}",
            match other {
                TryRecv::Empty => "empty",
                TryRecv::Closed => "closed",
                TryRecv::Item(_) => "terminate",
            }
        ),
    }
}
