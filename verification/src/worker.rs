//! The delivery worker's state machine: batching policy, connection
//! lifecycle, retry and reconnect, and the best-effort shutdown flush.
//!
//! Every decision of the worker stands here as a pure, verified transition.
//! A driver loop asks for the pending [`Action`], performs it (receive,
//! connect, sleep, write, exit), and feeds the outcome back as an [`Event`];
//! the machine decides the next state. The driver moves bytes and waits, and
//! nothing else.

use vstd::prelude::*;

verus! {

use crate::fluent::{Record, RecordView, MessageView, record_view_wf};
use crate::mailbox::MailboxSender;

/// One mailbox message: a record to forward, or the termination signal.
pub enum Message {
    Record(Record),
    Terminate,
}

/// A sink for finished records, filled once per observed event.
pub trait Consumer {
    fn record(&self, record: Record);
}

/// A consumer that enqueues each record into the mailbox.
pub struct WorkerChannel(pub MailboxSender);

impl Consumer for WorkerChannel {
    fn record(&self, record: Record) {
        self.0.send(Message::Record(record));
    }
}

/// What the worker waits for next.
#[derive(Clone, Copy, PartialEq, Eq, Structural, Debug)]
pub enum Action {
    /// Block on the mailbox for one message.
    RecvBlocking,
    /// Take a message only if one is queued.
    RecvNonBlocking,
    /// Ask the connection factory for a sink (only when none is cached).
    Connect,
    /// Sleep the fixed backoff, then report `Slept`.
    Sleep,
    /// Encode the current batch and write it to the cached connection; keep
    /// the connection on success, discard it on failure.
    Write,
    /// The worker is done; the thread exits.
    Exit,
}

/// What the driver observed while performing the last action.
pub enum Event {
    /// A record arrived from the mailbox.
    Received(Record),
    /// A non-blocking receive found the mailbox empty.
    MailboxEmpty,
    /// The termination signal arrived, or every producer handle is gone.
    MailboxClosed,
    /// The connection factory yielded a sink; the driver holds it now.
    Connected,
    /// The connection factory failed.
    ConnectFailed,
    /// The requested backoff sleep finished.
    Slept,
    /// The batch was written; the driver keeps the connection cached.
    WriteSucceeded,
    /// The write failed; the driver discarded the connection.
    WriteFailed,
}

/// Model of an [`Event`].
#[verifier::ext_equal]
pub enum EventView {
    Received(RecordView),
    MailboxEmpty,
    MailboxClosed,
    Connected,
    ConnectFailed,
    Slept,
    WriteSucceeded,
    WriteFailed,
}

impl View for Event {
    type V = EventView;

    open spec fn view(&self) -> EventView {
        match self {
            Event::Received(r) => EventView::Received(r@),
            Event::MailboxEmpty => EventView::MailboxEmpty,
            Event::MailboxClosed => EventView::MailboxClosed,
            Event::Connected => EventView::Connected,
            Event::ConnectFailed => EventView::ConnectFailed,
            Event::Slept => EventView::Slept,
            Event::WriteSucceeded => EventView::WriteSucceeded,
            Event::WriteFailed => EventView::WriteFailed,
        }
    }
}

/// A record event is well formed when its record is.
pub open spec fn event_wf(ev: EventView) -> bool {
    match ev {
        EventView::Received(r) => record_view_wf(r),
        _ => true,
    }
}

/// Where the worker stands in its cycle.
#[derive(Clone, Copy, PartialEq, Eq, Structural, Debug)]
pub enum Phase {
    /// Accumulating, below the cap: block for the next message.
    FillBlocking,
    /// Accumulating past the first phase: drain whatever is queued.
    FillOpportunistic,
    /// Sending, no cached connection: ask the factory. `second` marks the
    /// retry after the backoff sleep.
    Connect { second: bool },
    /// Sending: the fixed backoff between the two factory calls.
    Backoff,
    /// Sending: write the batch to the held connection.
    Write,
    /// Draining: ask the factory; `attempts` delivery attempts remain.
    DrainConnect { attempts: u8, second: bool },
    /// Draining: backoff between the two factory calls of one attempt.
    DrainBackoff { attempts: u8 },
    /// Draining: write the pending batch.
    DrainWrite { attempts: u8 },
    /// Draining: backoff after a failed write, before the next attempt.
    DrainRetry { attempts: u8 },
    /// Terminated.
    Done,
}

/// In every draining phase between one and three attempts remain.
pub open spec fn phase_wf(p: Phase) -> bool {
    match p {
        Phase::DrainConnect { attempts, .. } => 1 <= attempts <= 3,
        Phase::DrainBackoff { attempts } => 1 <= attempts <= 3,
        Phase::DrainWrite { attempts } => 1 <= attempts <= 3,
        Phase::DrainRetry { attempts } => 1 <= attempts <= 3,
        _ => true,
    }
}

/// The delivery worker: one batch, the batching cap, whether the driver
/// holds a cached connection, and the current phase.
pub struct Worker {
    pub batch: crate::fluent::Message,
    pub cap: usize,
    pub has_conn: bool,
    pub phase: Phase,
}

/// Model of a [`Worker`].
#[verifier::ext_equal]
pub struct WorkerView {
    pub batch: MessageView,
    pub cap: usize,
    pub has_conn: bool,
    pub phase: Phase,
}

impl View for Worker {
    type V = WorkerView;

    open spec fn view(&self) -> WorkerView {
        WorkerView {
            batch: self.batch@,
            cap: self.cap,
            has_conn: self.has_conn,
            phase: self.phase,
        }
    }
}

/// The accumulating phase for a batch of `len` records: block while below
/// the cap, otherwise drain opportunistically.
pub open spec fn fill_phase(len: int, cap: int) -> Phase {
    if len < cap {
        Phase::FillBlocking
    } else {
        Phase::FillOpportunistic
    }
}

/// Entering the drain: nothing pending ends the worker at once; otherwise up
/// to three delivery attempts follow, the first reusing a cached connection.
pub open spec fn drain_entry(w: WorkerView) -> WorkerView {
    if w.batch.records.len() == 0 {
        WorkerView { phase: Phase::Done, ..w }
    } else if w.has_conn {
        WorkerView { phase: Phase::DrainWrite { attempts: 3 }, ..w }
    } else {
        WorkerView { phase: Phase::DrainConnect { attempts: 3, second: false }, ..w }
    }
}

/// The worker's whole control flow, one transition at a time. An event that
/// cannot occur in the current phase changes nothing.
pub open spec fn step_spec(w: WorkerView, ev: EventView) -> WorkerView {
    match (w.phase, ev) {
        (Phase::FillBlocking, EventView::Received(r)) => WorkerView {
            batch: MessageView { tag: w.batch.tag, records: w.batch.records.push(r) },
            phase: fill_phase(w.batch.records.len() as int + 1, w.cap as int),
            ..w
        },
        (Phase::FillBlocking, EventView::MailboxClosed) => drain_entry(w),
        (Phase::FillOpportunistic, EventView::Received(r)) => WorkerView {
            batch: MessageView { tag: w.batch.tag, records: w.batch.records.push(r) },
            phase: Phase::FillOpportunistic,
            ..w
        },
        (Phase::FillOpportunistic, EventView::MailboxEmpty) => WorkerView {
            phase: if w.has_conn {
                Phase::Write
            } else {
                Phase::Connect { second: false }
            },
            ..w
        },
        (Phase::FillOpportunistic, EventView::MailboxClosed) => drain_entry(w),
        (Phase::Connect { .. }, EventView::Connected) => WorkerView {
            has_conn: true,
            phase: Phase::Write,
            ..w
        },
        (Phase::Connect { second: false }, EventView::ConnectFailed) => WorkerView {
            phase: Phase::Backoff,
            ..w
        },
        (Phase::Connect { second: true }, EventView::ConnectFailed) => WorkerView {
            phase: fill_phase(w.batch.records.len() as int, w.cap as int),
            ..w
        },
        (Phase::Backoff, EventView::Slept) => WorkerView {
            phase: Phase::Connect { second: true },
            ..w
        },
        (Phase::Write, EventView::WriteSucceeded) => WorkerView {
            batch: MessageView { tag: w.batch.tag, records: Seq::empty() },
            has_conn: true,
            phase: Phase::FillBlocking,
            ..w
        },
        (Phase::Write, EventView::WriteFailed) => WorkerView {
            has_conn: false,
            phase: fill_phase(w.batch.records.len() as int, w.cap as int),
            ..w
        },
        (Phase::DrainConnect { attempts, .. }, EventView::Connected) => WorkerView {
            has_conn: true,
            phase: Phase::DrainWrite { attempts },
            ..w
        },
        (Phase::DrainConnect { attempts, second: false }, EventView::ConnectFailed) => WorkerView {
            phase: Phase::DrainBackoff { attempts },
            ..w
        },
        (Phase::DrainConnect { attempts, second: true }, EventView::ConnectFailed) => {
            if attempts <= 1 {
                WorkerView { phase: Phase::Done, ..w }
            } else {
                WorkerView {
                    phase: Phase::DrainConnect { attempts: (attempts - 1) as u8, second: false },
                    ..w
                }
            }
        },
        (Phase::DrainBackoff { attempts }, EventView::Slept) => WorkerView {
            phase: Phase::DrainConnect { attempts, second: true },
            ..w
        },
        (Phase::DrainWrite { .. }, EventView::WriteSucceeded) => WorkerView {
            has_conn: true,
            phase: Phase::Done,
            ..w
        },
        (Phase::DrainWrite { attempts }, EventView::WriteFailed) => {
            if attempts <= 1 {
                WorkerView { has_conn: false, phase: Phase::Done, ..w }
            } else {
                WorkerView {
                    has_conn: false,
                    phase: Phase::DrainRetry { attempts: (attempts - 1) as u8 },
                    ..w
                }
            }
        },
        (Phase::DrainRetry { attempts }, EventView::Slept) => WorkerView {
            phase: Phase::DrainConnect { attempts, second: false },
            ..w
        },
        _ => w,
    }
}

/// The action pending in each phase.
pub open spec fn action_spec(p: Phase) -> Action {
    match p {
        Phase::FillBlocking => Action::RecvBlocking,
        Phase::FillOpportunistic => Action::RecvNonBlocking,
        Phase::Connect { .. } => Action::Connect,
        Phase::Backoff => Action::Sleep,
        Phase::Write => Action::Write,
        Phase::DrainConnect { .. } => Action::Connect,
        Phase::DrainBackoff { .. } => Action::Sleep,
        Phase::DrainWrite { .. } => Action::Write,
        Phase::DrainRetry { .. } => Action::Sleep,
        Phase::Done => Action::Exit,
    }
}

/// Folds a sequence of events through the machine, first to last.
pub open spec fn run_steps(w: WorkerView, evs: Seq<EventView>) -> WorkerView
    decreases evs.len(),
{
    if evs.len() == 0 {
        w
    } else {
        run_steps(step_spec(w, evs[0]), evs.drop_first())
    }
}

pub proof fn lemma_run_steps_concat(w: WorkerView, e1: Seq<EventView>, e2: Seq<EventView>)
    ensures
        run_steps(w, e1 + e2) == run_steps(run_steps(w, e1), e2),
    decreases e1.len(),
{
    if e1.len() == 0 {
        assert(e1 + e2 =~= e2);
    } else {
        assert((e1 + e2)[0] == e1[0]);
        assert((e1 + e2).drop_first() =~= e1.drop_first() + e2);
        lemma_run_steps_concat(step_spec(w, e1[0]), e1.drop_first(), e2);
    }
}

pub proof fn lemma_run_one(w: WorkerView, ev: EventView)
    ensures
        run_steps(w, seq![ev]) == step_spec(w, ev),
{
    assert(seq![ev].drop_first() =~= Seq::<EventView>::empty());
    assert(run_steps(step_spec(w, ev), seq![ev].drop_first()) == step_spec(w, ev));
}

/// While accumulating, arriving records are appended in arrival order: none
/// is dropped, none is reordered, and what the batch held stays in place.
/// A worker that starts blocking ends in the phase its final size demands; a
/// worker already draining the backlog stays there.
pub proof fn lemma_fill_keeps_order(w: WorkerView, rs: Seq<RecordView>)
    requires
        w.phase == Phase::FillBlocking || w.phase == Phase::FillOpportunistic,
        w.phase == Phase::FillBlocking ==> w.batch.records.len() < w.cap,
    ensures
        ({
            let wn = run_steps(w, rs.map_values(|r: RecordView| EventView::Received(r)));
            &&& wn.batch.records == w.batch.records + rs
            &&& wn.batch.tag == w.batch.tag
            &&& wn.cap == w.cap
            &&& wn.has_conn == w.has_conn
            &&& wn.phase == (if w.phase == Phase::FillBlocking {
                fill_phase(w.batch.records.len() as int + rs.len() as int, w.cap as int)
            } else {
                Phase::FillOpportunistic
            })
        }),
    decreases rs.len(),
{
    let evs = rs.map_values(|r: RecordView| EventView::Received(r));
    if rs.len() == 0 {
        assert(w.batch.records + rs =~= w.batch.records);
        if w.phase == Phase::FillBlocking {
            assert(fill_phase(w.batch.records.len() as int + 0, w.cap as int) == Phase::FillBlocking);
        }
    } else {
        let w1 = step_spec(w, EventView::Received(rs[0]));
        assert(evs[0] == EventView::Received(rs[0]));
        assert(evs.drop_first() =~= rs.drop_first().map_values(
            |r: RecordView| EventView::Received(r),
        ));
        lemma_fill_keeps_order(w1, rs.drop_first());
        let wn = run_steps(w, evs);
        assert(wn.batch.records =~= w.batch.records + rs);
    }
}

/// Micro-batching: every record already queued enters the first batch, even
/// beyond the cap. The cap only ends the blocking phase; the opportunistic
/// drain then absorbs the whole backlog, and the batch goes out as one.
pub proof fn lemma_single_batch_absorbs_backlog(w0: WorkerView, rs: Seq<RecordView>)
    requires
        w0.phase == Phase::FillBlocking,
        w0.batch.records.len() == 0,
        w0.cap >= 1,
        rs.len() >= w0.cap,
    ensures
        ({
            let wn = run_steps(
                w0,
                rs.map_values(|r: RecordView| EventView::Received(r)).push(EventView::MailboxEmpty),
            );
            &&& wn.batch.records == rs
            &&& wn.phase == (if w0.has_conn {
                Phase::Write
            } else {
                Phase::Connect { second: false }
            })
        }),
{
    let feed = rs.map_values(|r: RecordView| EventView::Received(r));
    lemma_fill_keeps_order(w0, rs);
    let w1 = run_steps(w0, feed);
    assert(w1.batch.records =~= rs);
    assert(w1.phase == Phase::FillOpportunistic);
    assert(feed.push(EventView::MailboxEmpty) =~= feed + seq![EventView::MailboxEmpty]);
    lemma_run_steps_concat(w0, feed, seq![EventView::MailboxEmpty]);
    lemma_run_one(w1, EventView::MailboxEmpty);
}

/// Retry preserves the batch: when the connection factory fails twice (one
/// delivery cycle giving up) and succeeds on its third call in the next
/// cycle, no record collected in the failing cycle is dropped — the batch
/// finally handed to the write holds both cycles' records, in order.
pub proof fn lemma_retry_preserves_batch(
    w0: WorkerView,
    a: Seq<RecordView>,
    b: Seq<RecordView>,
)
    requires
        w0.phase == Phase::FillBlocking,
        !w0.has_conn,
        w0.batch.records.len() == 0,
        w0.cap >= 1,
        a.len() >= w0.cap,
    ensures
        ({
            let evs = a.map_values(|r: RecordView| EventView::Received(r)) + seq![
                EventView::MailboxEmpty,
                EventView::ConnectFailed,
                EventView::Slept,
                EventView::ConnectFailed,
            ] + b.map_values(|r: RecordView| EventView::Received(r)) + seq![
                EventView::MailboxEmpty,
                EventView::Connected,
            ];
            let wn = run_steps(w0, evs);
            &&& wn.phase == Phase::Write
            &&& wn.batch.records == a + b
            &&& wn.batch.tag == w0.batch.tag
        }),
{
    let feed_a = a.map_values(|r: RecordView| EventView::Received(r));
    let feed_b = b.map_values(|r: RecordView| EventView::Received(r));
    let mid = seq![
        EventView::MailboxEmpty,
        EventView::ConnectFailed,
        EventView::Slept,
        EventView::ConnectFailed,
    ];
    let tail = seq![EventView::MailboxEmpty, EventView::Connected];
    let evs = feed_a + mid + feed_b + tail;

    lemma_fill_keeps_order(w0, a);
    let w1 = run_steps(w0, feed_a);
    assert(w1.phase == Phase::FillOpportunistic);
    assert(w1.batch.records =~= a);

    let w2 = step_spec(w1, EventView::MailboxEmpty);
    assert(w2.phase == Phase::Connect { second: false });
    let w3 = step_spec(w2, EventView::ConnectFailed);
    assert(w3.phase == Phase::Backoff);
    let w4 = step_spec(w3, EventView::Slept);
    assert(w4.phase == Phase::Connect { second: true });
    let w5 = step_spec(w4, EventView::ConnectFailed);
    assert(w5.phase == Phase::FillOpportunistic);
    assert(w5.batch.records == a);

    assert(mid =~= seq![EventView::MailboxEmpty] + seq![EventView::ConnectFailed] + seq![
        EventView::Slept,
    ] + seq![EventView::ConnectFailed]);
    lemma_run_steps_concat(w1, seq![EventView::MailboxEmpty], seq![EventView::ConnectFailed]);
    lemma_run_steps_concat(
        w1,
        seq![EventView::MailboxEmpty] + seq![EventView::ConnectFailed],
        seq![EventView::Slept],
    );
    lemma_run_steps_concat(
        w1,
        seq![EventView::MailboxEmpty] + seq![EventView::ConnectFailed] + seq![EventView::Slept],
        seq![EventView::ConnectFailed],
    );
    lemma_run_one(w1, EventView::MailboxEmpty);
    lemma_run_one(w2, EventView::ConnectFailed);
    lemma_run_one(w3, EventView::Slept);
    lemma_run_one(w4, EventView::ConnectFailed);
    assert(run_steps(w1, mid) == w5);

    lemma_fill_keeps_order(w5, b);
    let w6 = run_steps(w5, feed_b);
    assert(w6.phase == Phase::FillOpportunistic);
    assert(w6.batch.records =~= a + b);
    assert(!w6.has_conn);

    let w7 = step_spec(w6, EventView::MailboxEmpty);
    assert(w7.phase == Phase::Connect { second: false });
    let w8 = step_spec(w7, EventView::Connected);
    assert(w8.phase == Phase::Write);
    assert(w8.batch.records == a + b);

    assert(tail =~= seq![EventView::MailboxEmpty] + seq![EventView::Connected]);
    lemma_run_steps_concat(w6, seq![EventView::MailboxEmpty], seq![EventView::Connected]);
    lemma_run_one(w6, EventView::MailboxEmpty);
    lemma_run_one(w7, EventView::Connected);
    assert(run_steps(w6, tail) == w8);

    lemma_run_steps_concat(w0, feed_a, mid);
    lemma_run_steps_concat(w0, feed_a + mid, feed_b);
    lemma_run_steps_concat(w0, feed_a + mid + feed_b, tail);
    assert(run_steps(w0, evs) == w8);
}

/// Termination flush, delivering: entering the drain with a pending batch
/// and no cached connection, a factory that fails once and then succeeds
/// leads to one write of exactly the pending batch, and the worker ends
/// right after that write succeeds.
pub proof fn lemma_drain_flush_delivers(w0: WorkerView)
    requires
        w0.phase == Phase::FillBlocking || w0.phase == Phase::FillOpportunistic,
        !w0.has_conn,
        w0.batch.records.len() > 0,
    ensures
        ({
            let w1 = step_spec(w0, EventView::MailboxClosed);
            let w2 = step_spec(w1, EventView::ConnectFailed);
            let w3 = step_spec(w2, EventView::Slept);
            let w4 = step_spec(w3, EventView::Connected);
            let w5 = step_spec(w4, EventView::WriteSucceeded);
            &&& w1.phase == Phase::DrainConnect { attempts: 3, second: false }
            &&& w4.phase == Phase::DrainWrite { attempts: 3 }
            &&& action_spec(w4.phase) == Action::Write
            &&& w4.batch.records == w0.batch.records
            &&& w5.phase == Phase::Done
        }),
{
}

/// Termination flush, giving up: entering the drain with a pending batch
/// and a factory that always fails, the worker makes exactly three delivery
/// attempts of two factory calls each, never reaches a write, and ends with
/// the batch discarded.
pub proof fn lemma_drain_gives_up(w0: WorkerView)
    requires
        w0.phase == Phase::FillBlocking || w0.phase == Phase::FillOpportunistic,
        !w0.has_conn,
        w0.batch.records.len() > 0,
    ensures
        ({
            let w1 = step_spec(w0, EventView::MailboxClosed);
            let w2 = step_spec(w1, EventView::ConnectFailed);
            let w3 = step_spec(w2, EventView::Slept);
            let w4 = step_spec(w3, EventView::ConnectFailed);
            let w5 = step_spec(w4, EventView::ConnectFailed);
            let w6 = step_spec(w5, EventView::Slept);
            let w7 = step_spec(w6, EventView::ConnectFailed);
            let w8 = step_spec(w7, EventView::ConnectFailed);
            let w9 = step_spec(w8, EventView::Slept);
            let w10 = step_spec(w9, EventView::ConnectFailed);
            &&& w1.phase == Phase::DrainConnect { attempts: 3, second: false }
            &&& w2.phase == Phase::DrainBackoff { attempts: 3 }
            &&& w3.phase == Phase::DrainConnect { attempts: 3, second: true }
            &&& w4.phase == Phase::DrainConnect { attempts: 2, second: false }
            &&& w5.phase == Phase::DrainBackoff { attempts: 2 }
            &&& w6.phase == Phase::DrainConnect { attempts: 2, second: true }
            &&& w7.phase == Phase::DrainConnect { attempts: 1, second: false }
            &&& w8.phase == Phase::DrainBackoff { attempts: 1 }
            &&& w9.phase == Phase::DrainConnect { attempts: 1, second: true }
            &&& w10.phase == Phase::Done
            &&& action_spec(w1.phase) != Action::Write
            &&& action_spec(w2.phase) != Action::Write
            &&& action_spec(w3.phase) != Action::Write
            &&& action_spec(w4.phase) != Action::Write
            &&& action_spec(w5.phase) != Action::Write
            &&& action_spec(w6.phase) != Action::Write
            &&& action_spec(w7.phase) != Action::Write
            &&& action_spec(w8.phase) != Action::Write
            &&& action_spec(w9.phase) != Action::Write
            &&& w10.batch.records == w0.batch.records
        }),
{
}

impl Worker {
    pub open spec fn wf(self) -> bool {
        &&& self.batch.wf()
        &&& self.cap >= 1
        &&& phase_wf(self.phase)
        &&& self.phase == Phase::FillBlocking ==> self@.batch.records.len() < self.cap
    }

    /// A fresh worker: empty batch, no cached connection, accumulating.
    pub fn new(tag: &'static str, cap: usize) -> (w: Worker)
        requires
            cap >= 1,
        ensures
            w.wf(),
            w@.batch.tag == tag@,
            w@.batch.records == Seq::<RecordView>::empty(),
            w@.cap == cap,
            !w@.has_conn,
            w@.phase == Phase::FillBlocking,
    {
        Worker {
            batch: crate::fluent::Message::new(tag),
            cap,
            has_conn: false,
            phase: Phase::FillBlocking,
        }
    }

    /// The action the driver must perform next.
    pub fn action(&self) -> (a: Action)
        ensures
            a == action_spec(self@.phase),
    {
        match self.phase {
            Phase::FillBlocking => Action::RecvBlocking,
            Phase::FillOpportunistic => Action::RecvNonBlocking,
            Phase::Connect { .. } => Action::Connect,
            Phase::Backoff => Action::Sleep,
            Phase::Write => Action::Write,
            Phase::DrainConnect { .. } => Action::Connect,
            Phase::DrainBackoff { .. } => Action::Sleep,
            Phase::DrainWrite { .. } => Action::Write,
            Phase::DrainRetry { .. } => Action::Sleep,
            Phase::Done => Action::Exit,
        }
    }

    /// Feeds the outcome of the last action into the machine.
    pub fn step(&mut self, ev: Event)
        requires
            old(self).wf(),
            event_wf(ev@),
            ev@ is Received ==> old(self)@.batch.records.len() < usize::MAX,
        ensures
            final(self).wf(),
            final(self)@ == step_spec(old(self)@, ev@),
    {
        let ph = self.phase;
        match (ph, ev) {
            (Phase::FillBlocking, Event::Received(r)) => {
                self.batch.add(r);
                self.phase = if self.batch.len() < self.cap {
                    Phase::FillBlocking
                } else {
                    Phase::FillOpportunistic
                };
            },
            (Phase::FillBlocking, Event::MailboxClosed) => {
                self.enter_drain();
            },
            (Phase::FillOpportunistic, Event::Received(r)) => {
                self.batch.add(r);
            },
            (Phase::FillOpportunistic, Event::MailboxEmpty) => {
                self.phase = if self.has_conn {
                    Phase::Write
                } else {
                    Phase::Connect { second: false }
                };
            },
            (Phase::FillOpportunistic, Event::MailboxClosed) => {
                self.enter_drain();
            },
            (Phase::Connect { .. }, Event::Connected) => {
                self.has_conn = true;
                self.phase = Phase::Write;
            },
            (Phase::Connect { second: false }, Event::ConnectFailed) => {
                self.phase = Phase::Backoff;
            },
            (Phase::Connect { second: true }, Event::ConnectFailed) => {
                self.phase = if self.batch.len() < self.cap {
                    Phase::FillBlocking
                } else {
                    Phase::FillOpportunistic
                };
            },
            (Phase::Backoff, Event::Slept) => {
                self.phase = Phase::Connect { second: true };
            },
            (Phase::Write, Event::WriteSucceeded) => {
                self.batch.clear();
                self.has_conn = true;
                self.phase = Phase::FillBlocking;
            },
            (Phase::Write, Event::WriteFailed) => {
                self.has_conn = false;
                self.phase = if self.batch.len() < self.cap {
                    Phase::FillBlocking
                } else {
                    Phase::FillOpportunistic
                };
            },
            (Phase::DrainConnect { attempts, .. }, Event::Connected) => {
                self.has_conn = true;
                self.phase = Phase::DrainWrite { attempts };
            },
            (Phase::DrainConnect { attempts, second: false }, Event::ConnectFailed) => {
                self.phase = Phase::DrainBackoff { attempts };
            },
            (Phase::DrainConnect { attempts, second: true }, Event::ConnectFailed) => {
                self.phase = if attempts <= 1 {
                    Phase::Done
                } else {
                    Phase::DrainConnect { attempts: attempts - 1, second: false }
                };
            },
            (Phase::DrainBackoff { attempts }, Event::Slept) => {
                self.phase = Phase::DrainConnect { attempts, second: true };
            },
            (Phase::DrainWrite { .. }, Event::WriteSucceeded) => {
                self.has_conn = true;
                self.phase = Phase::Done;
            },
            (Phase::DrainWrite { attempts }, Event::WriteFailed) => {
                self.has_conn = false;
                self.phase = if attempts <= 1 {
                    Phase::Done
                } else {
                    Phase::DrainRetry { attempts: attempts - 1 }
                };
            },
            (Phase::DrainRetry { attempts }, Event::Slept) => {
                self.phase = Phase::DrainConnect { attempts, second: false };
            },
            _ => {},
        }
    }

    /// Shutdown was signalled: leave at once with an empty batch, otherwise
    /// begin the bounded delivery attempts.
    fn enter_drain(&mut self)
        requires
            old(self).wf(),
        ensures
            final(self).wf(),
            final(self)@ == drain_entry(old(self)@),
    {
        if self.batch.len() == 0 {
            self.phase = Phase::Done;
        } else if self.has_conn {
            self.phase = Phase::DrainWrite { attempts: 3 };
        } else {
            self.phase = Phase::DrainConnect { attempts: 3, second: false };
        }
    }
}

} // verus!
