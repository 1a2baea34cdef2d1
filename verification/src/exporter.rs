//! The exporter: how messages are gathered into batches, and how a batch is delivered.
//!
//! The exporter's loop receives messages, waits, and posts. What it does next is decided here: by
//! [`Batcher::step`] for each event, and by [`Delivery`] for each reply to a post.

use bytes::Bytes;
use vstd::prelude::*;

use crate::config::ExporterConfig;

verus! {

// --- Bytes ---

/// `bytes::Bytes`, a shared byte string.
#[verifier::external_type_specification]
#[verifier::external_body]
pub struct ExBytes(bytes::Bytes);

/// What a byte string holds.
pub uninterp spec fn contents(data: Bytes) -> Seq<u8>;

/// `Bytes::from` a `Vec<u8>`: the byte string holds what the vector held.
#[verifier::external_body]
fn shared_bytes(data: Vec<u8>) -> (shared: Bytes)
    ensures
        contents(shared) == data@,
{
    Bytes::from(data)
}

/// `<Bytes as AsRef<[u8]>>::as_ref`: the slice is what the byte string holds.
#[verifier::external_body]
fn byte_slice(data: &Bytes) -> (slice: &[u8])
    ensures
        slice@ == contents(*data),
{
    data.as_ref()
}

/// What each of the byte strings holds.
pub open spec fn chunks(items: Seq<Bytes>) -> Seq<Seq<u8>> {
    items.map_values(|data: Bytes| contents(data))
}

/// The byte strings one after the other.
pub open spec fn joined(items: Seq<Seq<u8>>) -> Seq<u8>
    decreases items.len(),
{
    if items.len() == 0 {
        Seq::empty()
    } else {
        joined(items.drop_last()) + items.last()
    }
}

// --- Messages ---

/// A kind of telemetry.
#[derive(Clone, Copy, Debug, PartialEq, Eq, Structural)]
pub enum Signal {
    Traces,
    Logs,
    Metrics,
}

/// Message types sent to the exporter.
pub enum ExportMessage {
    /// An encoded request.
    Data(Signal, Bytes),
    /// Post what is pending and say so.
    Flush,
    /// Post what is pending and stop.
    Shutdown,
}

/// A message that carries an encoded request.
pub fn data_message(signal: Signal, data: Vec<u8>) -> (message: ExportMessage)
    ensures
        message matches ExportMessage::Data(s, bytes) && s == signal && contents(bytes) == data@,
{
    ExportMessage::Data(signal, shared_bytes(data))
}

/// What the exporter's loop meets.
pub enum ExportEvent {
    /// A message came.
    Message(ExportMessage),
    /// A batch has waited long enough.
    Tick,
    /// No message will come any more.
    Closed,
}

/// Model of an event.
#[verifier::ext_equal]
pub enum EventView {
    Data(Signal, Seq<u8>),
    Flush,
    Shutdown,
    Tick,
    Closed,
}

impl View for ExportEvent {
    type V = EventView;

    open spec fn view(&self) -> EventView {
        match *self {
            ExportEvent::Message(ExportMessage::Data(signal, data)) => EventView::Data(
                signal,
                contents(data),
            ),
            ExportEvent::Message(ExportMessage::Flush) => EventView::Flush,
            ExportEvent::Message(ExportMessage::Shutdown) => EventView::Shutdown,
            ExportEvent::Tick => EventView::Tick,
            ExportEvent::Closed => EventView::Closed,
        }
    }
}

// --- Batches ---

/// Requests of one signal to be posted together.
pub struct Batch {
    pub signal: Signal,
    pub items: Vec<Bytes>,
}

/// Model of a batch.
#[verifier::ext_equal]
pub struct BatchView {
    pub signal: Signal,
    pub items: Seq<Seq<u8>>,
}

impl View for Batch {
    type V = BatchView;

    open spec fn view(&self) -> BatchView {
        BatchView { signal: self.signal, items: chunks(self.items@) }
    }
}

/// The batches that a list stands for.
pub open spec fn batches_view(batches: Seq<Batch>) -> Seq<BatchView> {
    batches.map_values(|batch: Batch| batch@)
}

impl Batch {
    /// The body to post: the requests one after the other.
    pub fn body(&self) -> (body: Bytes)
        ensures
            contents(body) == joined(self@.items),
    {
        let ghost all = self@.items;
        let mut data: Vec<u8> = Vec::new();
        let mut i: usize = 0;
        while i < self.items.len()
            invariant
                i <= self.items@.len(),
                all == chunks(self.items@),
                data@ == joined(all.take(i as int)),
            decreases self.items@.len() - i,
        {
            data.extend_from_slice(byte_slice(&self.items[i]));
            proof {
                let upto = all.take(i + 1);
                assert(upto.drop_last() =~= all.take(i as int));
                assert(upto.last() == contents(self.items@[i as int]));
                assert(data@ =~= joined(upto));
            }
            i = i + 1;
        }
        assert(all.take(i as int) =~= all);
        shared_bytes(data)
    }
}

/// A batch of the items, absent when there are none.
pub open spec fn batch_opt(signal: Signal, items: Seq<Seq<u8>>) -> Seq<BatchView> {
    if items.len() == 0 {
        Seq::empty()
    } else {
        seq![BatchView { signal, items }]
    }
}

// --- Batcher ---

/// Model of the batcher: which signals are exported, how large a batch grows, and what is pending.
#[verifier::ext_equal]
pub struct BatcherView {
    pub traces_on: bool,
    pub logs_on: bool,
    pub metrics_on: bool,
    pub batch_size: nat,
    pub traces: Seq<Seq<u8>>,
    pub logs: Seq<Seq<u8>>,
    pub metrics: Seq<Seq<u8>>,
}

/// Whether a signal is exported.
pub open spec fn enabled(batcher: BatcherView, signal: Signal) -> bool {
    match signal {
        Signal::Traces => batcher.traces_on,
        Signal::Logs => batcher.logs_on,
        Signal::Metrics => batcher.metrics_on,
    }
}

/// What is pending of a signal.
pub open spec fn pending(batcher: BatcherView, signal: Signal) -> Seq<Seq<u8>> {
    match signal {
        Signal::Traces => batcher.traces,
        Signal::Logs => batcher.logs,
        Signal::Metrics => batcher.metrics,
    }
}

/// The batcher with other items pending of a signal.
pub open spec fn with_pending(
    batcher: BatcherView,
    signal: Signal,
    items: Seq<Seq<u8>>,
) -> BatcherView {
    match signal {
        Signal::Traces => BatcherView { traces: items, ..batcher },
        Signal::Logs => BatcherView { logs: items, ..batcher },
        Signal::Metrics => BatcherView { metrics: items, ..batcher },
    }
}

/// The batcher with nothing pending.
pub open spec fn emptied(batcher: BatcherView) -> BatcherView {
    BatcherView { traces: Seq::empty(), logs: Seq::empty(), metrics: Seq::empty(), ..batcher }
}

/// What is pending, as one batch for each signal.
pub open spec fn drained(batcher: BatcherView) -> Seq<BatchView> {
    batch_opt(Signal::Traces, batcher.traces) + batch_opt(Signal::Logs, batcher.logs) + batch_opt(
        Signal::Metrics,
        batcher.metrics,
    )
}

/// What holds of every batcher: less is pending than makes a batch, and nothing of a signal that is
/// not exported.
pub open spec fn settled(batcher: BatcherView) -> bool {
    &&& batcher.batch_size > 0
    &&& forall|signal: Signal| #[trigger]
        pending(batcher, signal).len() < batcher.batch_size
    &&& forall|signal: Signal|
        !enabled(batcher, signal) ==> #[trigger] pending(batcher, signal).len() == 0
}

/// The batcher after an event.
pub open spec fn stepped(batcher: BatcherView, event: EventView) -> BatcherView {
    match event {
        EventView::Data(signal, data) => if !enabled(batcher, signal) {
            batcher
        } else if pending(batcher, signal).len() + 1 >= batcher.batch_size {
            with_pending(batcher, signal, Seq::empty())
        } else {
            with_pending(batcher, signal, pending(batcher, signal).push(data))
        },
        _ => emptied(batcher),
    }
}

/// The batches to post after an event: a full one as soon as it is full, and whatever is pending
/// when it has waited, when it is asked for, and at the end.
pub open spec fn released(batcher: BatcherView, event: EventView) -> Seq<BatchView> {
    match event {
        EventView::Data(signal, data) => if enabled(batcher, signal) && pending(
            batcher,
            signal,
        ).len() + 1 >= batcher.batch_size {
            seq![BatchView { signal, items: pending(batcher, signal).push(data) }]
        } else {
            Seq::empty()
        },
        _ => drained(batcher),
    }
}

/// Gathers messages into batches.
pub struct Batcher {
    traces_on: bool,
    logs_on: bool,
    metrics_on: bool,
    batch_size: usize,
    traces: Vec<Bytes>,
    logs: Vec<Bytes>,
    metrics: Vec<Bytes>,
}

impl View for Batcher {
    type V = BatcherView;

    closed spec fn view(&self) -> BatcherView {
        BatcherView {
            traces_on: self.traces_on,
            logs_on: self.logs_on,
            metrics_on: self.metrics_on,
            batch_size: self.batch_size as nat,
            traces: chunks(self.traces@),
            logs: chunks(self.logs@),
            metrics: chunks(self.metrics@),
        }
    }
}

/// Where the batches of a signal go; none where the signal is not exported.
pub fn signal_endpoint(config: &ExporterConfig, signal: Signal) -> (url: &Option<String>)
    ensures
        *url == (match signal {
            Signal::Traces => config.traces_url,
            Signal::Logs => config.logs_url,
            Signal::Metrics => config.metrics_url,
        }),
{
    match signal {
        Signal::Traces => &config.traces_url,
        Signal::Logs => &config.logs_url,
        Signal::Metrics => &config.metrics_url,
    }
}

/// What the exporter's loop does after an event: post the batches in order; then say that the flush
/// is done, or stop.
pub struct Step {
    pub batches: Vec<Batch>,
    pub flushed: bool,
    pub stop: bool,
}

/// Take all items out.
fn take_items(items: &mut Vec<Bytes>) -> (taken: Vec<Bytes>)
    ensures
        taken@ == old(items)@,
        final(items)@ == Seq::<Bytes>::empty(),
{
    let mut taken: Vec<Bytes> = Vec::new();
    taken.append(items);
    assert(taken@ =~= old(items)@);
    taken
}

/// Add an item; take all out when there are `batch_size`.
fn add_item(items: &mut Vec<Bytes>, data: Bytes, batch_size: usize) -> (full: Option<Vec<Bytes>>)
    ensures
        full is Some <==> old(items)@.len() + 1 >= batch_size,
        full matches Some(taken) ==> taken@ == old(items)@.push(data) && final(items)@ == Seq::<
            Bytes,
        >::empty(),
        full is None ==> final(items)@ == old(items)@.push(data),
{
    items.push(data);
    if items.len() >= batch_size {
        Some(take_items(items))
    } else {
        None
    }
}

/// Append a batch of the items, if there are any.
fn push_batch(batches: &mut Vec<Batch>, signal: Signal, items: Vec<Bytes>)
    ensures
        batches_view(final(batches)@) == batches_view(old(batches)@) + batch_opt(
            signal,
            chunks(items@),
        ),
{
    let ghost before = batches_view(batches@);
    if items.len() > 0 {
        let batch = Batch { signal, items };
        batches.push(batch);
        assert(batches_view(batches@) =~= before.push(batch@));
        assert(before.push(batch@) =~= before + batch_opt(signal, chunks(items@)));
    } else {
        assert(before + batch_opt(signal, chunks(items@)) =~= before);
    }
}

impl Batcher {
    /// A batcher with nothing pending, for the signals that have a URL.
    pub fn new(config: &ExporterConfig) -> (batcher: Batcher)
        requires
            config.batch_size > 0,
        ensures
            settled(batcher@),
            batcher@ == (BatcherView {
                traces_on: config.traces_url is Some,
                logs_on: config.logs_url is Some,
                metrics_on: config.metrics_url is Some,
                batch_size: config.batch_size as nat,
                traces: Seq::empty(),
                logs: Seq::empty(),
                metrics: Seq::empty(),
            }),
    {
        let batcher = Batcher {
            traces_on: config.traces_url.is_some(),
            logs_on: config.logs_url.is_some(),
            metrics_on: config.metrics_url.is_some(),
            batch_size: config.batch_size,
            traces: Vec::new(),
            logs: Vec::new(),
            metrics: Vec::new(),
        };
        assert(batcher@.traces =~= Seq::empty());
        assert(batcher@.logs =~= Seq::empty());
        assert(batcher@.metrics =~= Seq::empty());
        batcher
    }

    /// Take everything that is pending, as one batch for each signal.
    fn drain(&mut self) -> (batches: Vec<Batch>)
        ensures
            final(self)@ == emptied(old(self)@),
            batches_view(batches@) == drained(old(self)@),
    {
        let mut batches: Vec<Batch> = Vec::new();
        let traces = take_items(&mut self.traces);
        let logs = take_items(&mut self.logs);
        let metrics = take_items(&mut self.metrics);
        assert(batches_view(batches@) =~= Seq::<BatchView>::empty());
        push_batch(&mut batches, Signal::Traces, traces);
        push_batch(&mut batches, Signal::Logs, logs);
        push_batch(&mut batches, Signal::Metrics, metrics);
        proof {
            assert(batches_view(batches@) =~= drained(old(self)@));
            assert(self@.traces =~= Seq::empty());
            assert(self@.logs =~= Seq::empty());
            assert(self@.metrics =~= Seq::empty());
        }
        batches
    }

    /// Take in an encoded request.
    fn accept(&mut self, signal: Signal, data: Bytes) -> (batches: Vec<Batch>)
        requires
            settled(old(self)@),
        ensures
            final(self)@ == stepped(old(self)@, EventView::Data(signal, contents(data))),
            batches_view(batches@) == released(old(self)@, EventView::Data(signal, contents(data))),
    {
        let mut batches: Vec<Batch> = Vec::new();
        let on = match signal {
            Signal::Traces => self.traces_on,
            Signal::Logs => self.logs_on,
            Signal::Metrics => self.metrics_on,
        };
        assert(batches_view(batches@) =~= Seq::<BatchView>::empty());
        if on {
            let full = match signal {
                Signal::Traces => add_item(&mut self.traces, data, self.batch_size),
                Signal::Logs => add_item(&mut self.logs, data, self.batch_size),
                Signal::Metrics => add_item(&mut self.metrics, data, self.batch_size),
            };
            let ghost held = pending(old(self)@, signal);
            match full {
                Some(items) => {
                    assert(chunks(items@) =~= held.push(contents(data)));
                    assert(chunks(Seq::<Bytes>::empty()) =~= Seq::empty());
                    push_batch(&mut batches, signal, items);
                    assert(batches_view(batches@) =~= seq![
                        BatchView { signal, items: held.push(contents(data)) },
                    ]);
                },
                None => {
                    assert(pending(self@, signal) =~= held.push(contents(data)));
                },
            }
        }
        batches
    }

    /// Decide what to do after an event.
    pub fn step(&mut self, event: ExportEvent) -> (step: Step)
        requires
            settled(old(self)@),
        ensures
            settled(final(self)@),
            final(self)@ == stepped(old(self)@, event@),
            batches_view(step.batches@) == released(old(self)@, event@),
            step.flushed <==> event@ is Flush,
            step.stop <==> event@ is Shutdown || event@ is Closed,
            step.flushed <==> event matches ExportEvent::Message(ExportMessage::Flush),
            step.stop <==> event is Closed
                || event matches ExportEvent::Message(ExportMessage::Shutdown),
    {
        proof {
            lemma_stepped_settled(self@, event@);
        }
        match event {
            ExportEvent::Message(ExportMessage::Data(signal, data)) => {
                let batches = self.accept(signal, data);
                Step { batches, flushed: false, stop: false }
            },
            ExportEvent::Message(ExportMessage::Flush) => {
                Step { batches: self.drain(), flushed: true, stop: false }
            },
            ExportEvent::Message(ExportMessage::Shutdown) => {
                Step { batches: self.drain(), flushed: false, stop: true }
            },
            ExportEvent::Tick => Step { batches: self.drain(), flushed: false, stop: false },
            ExportEvent::Closed => Step { batches: self.drain(), flushed: false, stop: true },
        }
    }
}

pub(crate) proof fn lemma_stepped_settled(batcher: BatcherView, event: EventView)
    requires
        settled(batcher),
    ensures
        settled(stepped(batcher, event)),
{
    let after = stepped(batcher, event);
    assert forall|signal: Signal| #[trigger] pending(after, signal).len() < after.batch_size by {
        assert(pending(batcher, signal).len() < batcher.batch_size);
    }
    assert forall|signal: Signal| !enabled(after, signal) implies #[trigger] pending(
        after,
        signal,
    ).len() == 0 by {
        assert(pending(batcher, signal).len() < batcher.batch_size);
        assert(!enabled(batcher, signal));
    }
}

} // verus!
