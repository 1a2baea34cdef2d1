//! What holds of the exporter as a whole, whatever comes in and in whatever order.

use vstd::prelude::*;

use crate::exporter::{
    batch_opt, batches_view, contents, enabled, joined, lemma_stepped_settled, pending, released,
    settled, stepped, Batch, BatchView, BatcherView, EventView, ExportEvent, ExportMessage, Signal,
};
use crate::proto::{message_bytes, WireField};
use crate::wire::{decode_message, law_message_concat, law_message_round_trip};

verus! {

/// The items of a signal in a list of batches, in order.
pub open spec fn posted(batches: Seq<BatchView>, signal: Signal) -> Seq<Seq<u8>>
    decreases batches.len(),
{
    if batches.len() == 0 {
        Seq::empty()
    } else if batches.last().signal == signal {
        posted(batches.drop_last(), signal) + batches.last().items
    } else {
        posted(batches.drop_last(), signal)
    }
}

/// What an event brings of a signal.
pub open spec fn arrived(event: EventView, signal: Signal) -> Seq<Seq<u8>> {
    match event {
        EventView::Data(s, data) => if s == signal {
            seq![data]
        } else {
            Seq::empty()
        },
        _ => Seq::empty(),
    }
}

/// What a run of events brings of a signal.
pub open spec fn all_arrived(events: Seq<EventView>, signal: Signal) -> Seq<Seq<u8>>
    decreases events.len(),
{
    if events.len() == 0 {
        Seq::empty()
    } else {
        all_arrived(events.drop_last(), signal) + arrived(events.last(), signal)
    }
}

/// The batcher after a run of events.
pub open spec fn ran(batcher: BatcherView, events: Seq<EventView>) -> BatcherView
    decreases events.len(),
{
    if events.len() == 0 {
        batcher
    } else {
        stepped(ran(batcher, events.drop_last()), events.last())
    }
}

/// The batches that a run of events releases.
pub open spec fn run_batches(batcher: BatcherView, events: Seq<EventView>) -> Seq<BatchView>
    decreases events.len(),
{
    if events.len() == 0 {
        Seq::empty()
    } else {
        run_batches(batcher, events.drop_last()) + released(
            ran(batcher, events.drop_last()),
            events.last(),
        )
    }
}

proof fn lemma_posted_concat(a: Seq<BatchView>, b: Seq<BatchView>, signal: Signal)
    ensures
        posted(a + b, signal) == posted(a, signal) + posted(b, signal),
    decreases b.len(),
{
    if b.len() == 0 {
        assert(a + b =~= a);
        assert(posted(a, signal) + posted(b, signal) =~= posted(a, signal));
    } else {
        lemma_posted_concat(a, b.drop_last(), signal);
        assert((a + b).drop_last() =~= a + b.drop_last());
        assert(posted(a + b, signal) =~= posted(a, signal) + posted(b, signal));
    }
}

proof fn lemma_posted_opt(which: Signal, items: Seq<Seq<u8>>, signal: Signal)
    ensures
        posted(batch_opt(which, items), signal) == if which == signal {
            items
        } else {
            Seq::empty()
        },
{
    let batches = batch_opt(which, items);
    reveal_with_fuel(posted, 2);
    if items.len() > 0 {
        assert(batches.drop_last() =~= Seq::<BatchView>::empty());
        if which == signal {
            assert(posted(batches, signal) =~= items);
        }
    } else if which == signal {
        assert(posted(batches, signal) =~= items);
    }
}

/// An event loses nothing and reorders nothing: of a signal that is exported, what it releases and
/// what stays pending are what was pending and what it brought.
pub proof fn law_step_conserves(batcher: BatcherView, event: EventView, signal: Signal)
    requires
        enabled(batcher, signal),
    ensures
        posted(released(batcher, event), signal) + pending(stepped(batcher, event), signal)
            == pending(batcher, signal) + arrived(event, signal),
{
    match event {
        EventView::Data(s, data) => {
            let items = pending(batcher, s).push(data);
            if enabled(batcher, s) && pending(batcher, s).len() + 1 >= batcher.batch_size {
                assert(released(batcher, event) =~= batch_opt(s, items));
                lemma_posted_opt(s, items, signal);
            }
            assert(posted(released(batcher, event), signal) + pending(
                stepped(batcher, event),
                signal,
            ) =~= pending(batcher, signal) + arrived(event, signal));
        },
        _ => {
            let traces = batch_opt(Signal::Traces, batcher.traces);
            let logs = batch_opt(Signal::Logs, batcher.logs);
            let metrics = batch_opt(Signal::Metrics, batcher.metrics);
            lemma_posted_concat(traces, logs, signal);
            lemma_posted_concat(traces + logs, metrics, signal);
            lemma_posted_opt(Signal::Traces, batcher.traces, signal);
            lemma_posted_opt(Signal::Logs, batcher.logs, signal);
            lemma_posted_opt(Signal::Metrics, batcher.metrics, signal);
            assert(posted(released(batcher, event), signal) + pending(
                stepped(batcher, event),
                signal,
            ) =~= pending(batcher, signal) + arrived(event, signal));
        },
    }
}

proof fn lemma_ran(batcher: BatcherView, events: Seq<EventView>)
    requires
        settled(batcher),
    ensures
        settled(ran(batcher, events)),
        ran(batcher, events).batch_size == batcher.batch_size,
        forall|signal: Signal| #[trigger]
            enabled(ran(batcher, events), signal) == enabled(batcher, signal),
    decreases events.len(),
{
    if events.len() > 0 {
        let before = ran(batcher, events.drop_last());
        lemma_ran(batcher, events.drop_last());
        law_settled(before, events.last());
        assert forall|signal: Signal| #[trigger]
            enabled(ran(batcher, events), signal) == enabled(batcher, signal) by {
            assert(enabled(before, signal) == enabled(batcher, signal));
        }
    }
}

/// Less is ever pending than makes a batch, and never anything of a signal that is not exported.
pub proof fn law_settled(batcher: BatcherView, event: EventView)
    requires
        settled(batcher),
    ensures
        settled(stepped(batcher, event)),
{
    lemma_stepped_settled(batcher, event);
}

/// A run of events loses nothing and reorders nothing: of a signal that is exported, what was
/// posted and what is still pending are what was pending at first and all that came, in order.
pub proof fn law_run_conserves(batcher: BatcherView, events: Seq<EventView>, signal: Signal)
    requires
        settled(batcher),
        enabled(batcher, signal),
    ensures
        posted(run_batches(batcher, events), signal) + pending(ran(batcher, events), signal)
            == pending(batcher, signal) + all_arrived(events, signal),
    decreases events.len(),
{
    if events.len() > 0 {
        let rest = events.drop_last();
        let before = ran(batcher, rest);
        law_run_conserves(batcher, rest, signal);
        lemma_ran(batcher, rest);
        assert(enabled(before, signal));
        law_step_conserves(before, events.last(), signal);
        lemma_posted_concat(run_batches(batcher, rest), released(before, events.last()), signal);
        let done = posted(run_batches(batcher, rest), signal);
        let now = posted(released(before, events.last()), signal);
        assert(done + now + pending(ran(batcher, events), signal) =~= done + (now + pending(
            ran(batcher, events),
            signal,
        )));
        assert(done + (pending(before, signal) + arrived(events.last(), signal)) =~= (done
            + pending(before, signal)) + arrived(events.last(), signal));
        assert(pending(batcher, signal) + all_arrived(rest, signal) + arrived(
            events.last(),
            signal,
        ) =~= pending(batcher, signal) + all_arrived(events, signal));
    } else {
        assert(posted(run_batches(batcher, events), signal) + pending(
            ran(batcher, events),
            signal,
        ) =~= pending(batcher, signal) + all_arrived(events, signal));
    }
}

/// After a flush, at a shutdown and when the window ends, everything that came of a signal that is
/// exported has been posted, in order and once.
pub proof fn law_drain_posts_everything(
    batcher: BatcherView,
    events: Seq<EventView>,
    signal: Signal,
)
    requires
        settled(batcher),
        enabled(batcher, signal),
        events.len() > 0,
        events.last() !is Data,
    ensures
        posted(run_batches(batcher, events), signal) == pending(batcher, signal) + all_arrived(
            events,
            signal,
        ),
{
    law_run_conserves(batcher, events, signal);
    assert(pending(ran(batcher, events), signal) =~= Seq::empty());
    assert(posted(run_batches(batcher, events), signal) + Seq::<Seq<u8>>::empty() =~= posted(
        run_batches(batcher, events),
        signal,
    ));
}

/// Whether a batch is neither empty nor too large, and of a signal that is exported.
pub open spec fn proper_batch(batcher: BatcherView, batch: BatchView) -> bool {
    enabled(batcher, batch.signal) && 1 <= batch.items.len() <= batcher.batch_size
}

proof fn lemma_released_proper(batcher: BatcherView, event: EventView)
    requires
        settled(batcher),
    ensures
        forall|i: int|
            0 <= i < released(batcher, event).len() ==> proper_batch(
                batcher,
                #[trigger] released(batcher, event)[i],
            ),
{
    let batches = released(batcher, event);
    assert forall|i: int| 0 <= i < batches.len() implies proper_batch(
        batcher,
        #[trigger] batches[i],
    ) by {
        let signal = batches[i].signal;
        assert(pending(batcher, signal).len() < batcher.batch_size);
        match event {
            EventView::Data(s, data) => {},
            _ => {
                assert(batches[i].items == pending(batcher, signal));
            },
        }
    }
}

/// No batch is empty, none is larger than the batch size, and none is of a signal that is not
/// exported.
pub proof fn law_batches_proper(batcher: BatcherView, events: Seq<EventView>, i: int)
    requires
        settled(batcher),
        0 <= i < run_batches(batcher, events).len(),
    ensures
        proper_batch(batcher, run_batches(batcher, events)[i]),
    decreases events.len(),
{
    let rest = events.drop_last();
    let before = ran(batcher, rest);
    lemma_ran(batcher, rest);
    let earlier = run_batches(batcher, rest);
    if i < earlier.len() {
        law_batches_proper(batcher, rest, i);
    } else {
        lemma_released_proper(before, events.last());
        let batch = released(before, events.last())[i - earlier.len()];
        assert(proper_batch(before, batch));
        assert(enabled(before, batch.signal) == enabled(batcher, batch.signal));
    }
}

/// The fields of all requests, one after the other.
pub open spec fn merged(requests: Seq<Seq<WireField>>) -> Seq<WireField>
    decreases requests.len(),
{
    if requests.len() == 0 {
        Seq::empty()
    } else {
        merged(requests.drop_last()) + requests.last()
    }
}

/// The body of a batch is one request: a collector that reads it finds the fields of every request
/// in it, in order.
pub proof fn law_batch_is_one_request(requests: Seq<Seq<WireField>>)
    ensures
        joined(requests.map_values(|fields: Seq<WireField>| message_bytes(fields)))
            == message_bytes(merged(requests)),
        decode_message(joined(requests.map_values(|fields: Seq<WireField>| message_bytes(fields))))
            == Some(merged(requests)),
    decreases requests.len(),
{
    let write = |fields: Seq<WireField>| message_bytes(fields);
    let bodies = requests.map_values(write);
    if requests.len() > 0 {
        law_batch_is_one_request(requests.drop_last());
        assert(bodies.drop_last() =~= requests.drop_last().map_values(write));
        law_message_concat(merged(requests.drop_last()), requests.last());
    }
    law_message_round_trip(merged(requests));
}

/// An event is what came: a request of its signal with its bytes, a flush, a shutdown, the end of a
/// window, the end of all messages.
pub proof fn law_event_view(event: ExportEvent)
    ensures
        event matches ExportEvent::Message(ExportMessage::Data(signal, data)) ==> event@
            == EventView::Data(signal, contents(data)),
        event@ is Flush <==> event matches ExportEvent::Message(ExportMessage::Flush),
        event@ is Shutdown <==> event matches ExportEvent::Message(ExportMessage::Shutdown),
        event@ is Tick <==> event is Tick,
        event@ is Closed <==> event is Closed,
{
}

/// A batch is its signal with its requests in order, and a list of batches is each in its place.
pub proof fn law_batch_view(batches: Seq<Batch>, i: int, j: int)
    requires
        0 <= i < batches.len(),
    ensures
        batches_view(batches).len() == batches.len(),
        batches_view(batches)[i].signal == batches[i].signal,
        batches_view(batches)[i].items.len() == batches[i].items@.len(),
        0 <= j < batches[i].items@.len() ==> batches_view(batches)[i].items[j] == contents(
            batches[i].items@[j],
        ),
{
}

/// A request is held back until it fills the batch of its signal: then that batch is released,
/// whole and alone, with the request as its last. Until then nothing is released, and the request
/// waits behind those before it. One of a signal that is not exported is neither held nor released.
pub proof fn law_batch_fills(batcher: BatcherView, signal: Signal, data: Seq<u8>)
    requires
        settled(batcher),
    ensures
        ({
            let event = EventView::Data(signal, data);
            let held = pending(batcher, signal);
            &&& !enabled(batcher, signal) ==> released(batcher, event).len() == 0 && stepped(
                batcher,
                event,
            ) == batcher
            &&& enabled(batcher, signal) && held.len() + 1 < batcher.batch_size ==> released(
                batcher,
                event,
            ).len() == 0 && pending(stepped(batcher, event), signal) == held.push(data)
            &&& enabled(batcher, signal) && held.len() + 1 >= batcher.batch_size ==> {
                &&& released(batcher, event).len() == 1
                &&& released(batcher, event)[0].signal == signal
                &&& released(batcher, event)[0].items == held.push(data)
                &&& released(batcher, event)[0].items.len() == batcher.batch_size
                &&& pending(stepped(batcher, event), signal).len() == 0
            }
            &&& forall|other: Signal|
                other != signal ==> #[trigger] pending(stepped(batcher, event), other) == pending(
                    batcher,
                    other,
                )
        }),
{
    assert(pending(batcher, signal).len() < batcher.batch_size);
}

/// A flush, a shutdown, the end of a window and the end of all messages release what is pending,
/// one batch for each signal at most, traces before logs before metrics, and leave nothing.
pub proof fn law_drain_releases(batcher: BatcherView, event: EventView, i: int, j: int)
    requires
        event !is Data,
    ensures
        pending(stepped(batcher, event), Signal::Traces).len() == 0,
        pending(stepped(batcher, event), Signal::Logs).len() == 0,
        pending(stepped(batcher, event), Signal::Metrics).len() == 0,
        0 <= i < released(batcher, event).len() ==> released(batcher, event)[i].items == pending(
            batcher,
            released(batcher, event)[i].signal,
        ) && released(batcher, event)[i].items.len() > 0,
        0 <= i < j < released(batcher, event).len() ==> released(batcher, event)[i].signal
            != released(batcher, event)[j].signal && released(batcher, event)[i].signal
            != Signal::Metrics && released(batcher, event)[j].signal != Signal::Traces,
        forall|signal: Signal|
            #[trigger] pending(batcher, signal).len() > 0 ==> exists|k: int|
                0 <= k < released(batcher, event).len() && (#[trigger] released(
                    batcher,
                    event,
                )[k]).signal == signal,
{
    let traces = batch_opt(Signal::Traces, batcher.traces);
    let logs = batch_opt(Signal::Logs, batcher.logs);
    let all = released(batcher, event);
    assert forall|signal: Signal| #[trigger] pending(batcher, signal).len() > 0 implies exists|
        k: int,
    |
        0 <= k < all.len() && (#[trigger] all[k]).signal == signal by {
        match signal {
            Signal::Traces => {
                assert(all[0].signal == signal);
            },
            Signal::Logs => {
                assert(all[traces.len() as int].signal == signal);
            },
            Signal::Metrics => {
                assert(all[(traces.len() + logs.len()) as int].signal == signal);
            },
        }
    }
}

/// What is exported of each signal, and how large a batch grows, no event changes.
pub proof fn law_settings_stay(batcher: BatcherView, event: EventView, signal: Signal)
    ensures
        enabled(stepped(batcher, event), signal) == enabled(batcher, signal),
        stepped(batcher, event).batch_size == batcher.batch_size,
{
}

/// The parts of a body stand in it one after the other, whole.
pub proof fn law_joined(first: Seq<Seq<u8>>, item: Seq<u8>)
    ensures
        joined(Seq::<Seq<u8>>::empty()) == Seq::<u8>::empty(),
        joined(first.push(item)) == joined(first) + item,
{
    assert(first.push(item).drop_last() =~= first);
}

} // verus!
