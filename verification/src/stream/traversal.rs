//! Whole traversals: what an observer makes of a stream from its first
//! element to its end, and what holds of every such traversal.

use vstd::prelude::*;

use crate::error::ErrorView;
use crate::model::TraceView;
use crate::stream::observer::{
    deliver, dispatch, notify, observe, observe_run, pass_trace, Handler,
};
use crate::stream::state::{
    crosses, in_order, lemma_in_order_chain, state_before, MetaView, StreamState,
};
use crate::stream::{ElementView, Outcome};

verus! {

/// The pulls of a stream that yields the elements and then ends.
pub open spec fn pulls_of(elements: Seq<ElementView>) -> Seq<Outcome> {
    Seq::new(
        elements.len() + 1,
        |i: int|
            if i < elements.len() {
                Ok(Some(elements[i]))
            } else {
                Ok(None)
            },
    )
}

/// How a traversal ended: the meta data and the handlers at its end, the
/// elements that were yielded, in order, and the failure that ended it, if
/// one did.
pub struct Traversal<H> {
    pub meta: MetaView,
    pub handlers: Seq<H>,
    pub yielded: Seq<ElementView>,
    pub failure: Option<ErrorView>,
}

/// The traversal with the elements put before what it yielded.
pub open spec fn after_yielding<H>(first: Seq<ElementView>, rest: Traversal<H>) -> Traversal<H> {
    Traversal { yielded: first + rest.yielded, ..rest }
}

/// What an observer makes of the elements from `from` on, one after the
/// other, up to the last or to the first failure.
pub open spec fn traverse<H: Handler>(
    meta: MetaView,
    handlers: Seq<H>,
    elements: Seq<ElementView>,
    from: int,
) -> Traversal<H>
    decreases elements.len() - from,
{
    if from < 0 || from >= elements.len() {
        Traversal { meta, handlers, yielded: Seq::empty(), failure: None }
    } else {
        let (then, shown, out) = observe(meta, handlers, elements[from]);
        match out {
            Err(x) => Traversal { meta: then, handlers: shown, yielded: Seq::empty(), failure: Some(x) },
            Ok(None) => traverse(then, shown, elements, from + 1),
            Ok(Some(e)) => after_yielding(seq![e], traverse(then, shown, elements, from + 1)),
        }
    }
}

/// What the handlers make of the elements from `from` on, one after the
/// other, where none of them is shown the meta data and the order is not
/// looked at: every element is taken into the meta data and delivered.
pub open spec fn convey<H: Handler>(
    meta: MetaView,
    handlers: Seq<H>,
    elements: Seq<ElementView>,
    from: int,
) -> Traversal<H>
    decreases elements.len() - from,
{
    if from < 0 || from >= elements.len() {
        Traversal { meta, handlers, yielded: Seq::empty(), failure: None }
    } else {
        let then = meta.after(elements[from]);
        let (shown, out) = deliver(handlers, then, elements[from]);
        match out {
            Err(x) => Traversal { meta: then, handlers: shown, yielded: Seq::empty(), failure: Some(x) },
            Ok(None) => convey(then, shown, elements, from + 1),
            Ok(Some(e)) => after_yielding(seq![e], convey(then, shown, elements, from + 1)),
        }
    }
}

/// The meta data after the elements from `from` up to, not with, `to` were
/// taken in.
pub open spec fn stored(meta: MetaView, elements: Seq<ElementView>, from: int, to: int) -> MetaView
    decreases to - from,
{
    if from < 0 || from >= to || to > elements.len() {
        meta
    } else {
        stored(meta.after(elements[from]), elements, from + 1, to)
    }
}

/// Each pull of an observer is a step of the traversal: where the wrapped
/// stream yields the elements and then ends, a pull takes the traversal on
/// to the next element that is yielded, to the failure, or to the end.
pub proof fn lemma_pull_is_a_step<H: Handler>(
    meta: MetaView,
    handlers: Seq<H>,
    elements: Seq<ElementView>,
    from: int,
)
    requires
        0 <= from <= elements.len(),
    ensures
        match observe_run(meta, handlers, pulls_of(elements), from) {
            None => false,
            Some((then, shown, out, used)) => from < used <= elements.len() + 1 && traverse(
                meta,
                handlers,
                elements,
                from,
            ) == match out {
                Ok(Some(e)) => after_yielding(seq![e], traverse(then, shown, elements, used)),
                Ok(None) => Traversal {
                    meta: then,
                    handlers: shown,
                    yielded: Seq::empty(),
                    failure: None,
                },
                Err(x) => Traversal {
                    meta: then,
                    handlers: shown,
                    yielded: Seq::empty(),
                    failure: Some(x),
                },
            } && (out == Ok::<Option<ElementView>, ErrorView>(None) ==> used == elements.len()
                + 1),
        },
    decreases elements.len() - from,
{
    let pulls = pulls_of(elements);
    if from < elements.len() {
        assert(pulls[from] == Ok::<Option<ElementView>, ErrorView>(Some(elements[from])));
        let (then, shown, out) = observe(meta, handlers, elements[from]);
        if out == Ok::<Option<ElementView>, ErrorView>(None) {
            lemma_pull_is_a_step(then, shown, elements, from + 1);
        }
    } else {
        assert(pulls[from] == Ok::<Option<ElementView>, ErrorView>(None));
    }
}

/// A run of elements of the meta data that keeps the order passes: each is
/// yielded as it is, and no handler is shown anything.
pub proof fn lemma_meta_data_pass_in_a_row<H: Handler>(
    start: StreamState,
    meta: MetaView,
    handlers: Seq<H>,
    elements: Seq<ElementView>,
    from: int,
    to: int,
)
    requires
        in_order(start, elements),
        0 <= from <= to <= elements.len(),
        meta.state == state_before(start, elements, from),
        forall|i: int| from <= i < to ==> !(#[trigger] elements[i]).state().is_payload(),
    ensures
        traverse(meta, handlers, elements, from) == after_yielding(
            elements.subrange(from, to),
            traverse(stored(meta, elements, from, to), handlers, elements, to),
        ),
        stored(meta, elements, from, to).state == state_before(start, elements, to),
    decreases to - from,
{
    let rest = traverse(stored(meta, elements, from, to), handlers, elements, to);
    if from < to {
        let e = elements[from];
        assert(state_before(start, elements, from).rank() <= e.state().rank());
        let then = meta.after(e);
        assert(!e.state().is_payload());
        lemma_meta_data_pass_in_a_row(start, then, handlers, elements, from + 1, to);
        assert(seq![e] + (elements.subrange(from + 1, to) + rest.yielded) =~= elements.subrange(
            from,
            to,
        ) + rest.yielded);
    } else {
        assert(elements.subrange(from, to) + rest.yielded =~= rest.yielded);
    }
}

/// Once the payload has begun, no handler is shown the meta data: elements
/// that keep the order are delivered, and that is all.
pub proof fn lemma_payload_is_conveyed<H: Handler>(
    start: StreamState,
    meta: MetaView,
    handlers: Seq<H>,
    elements: Seq<ElementView>,
    from: int,
)
    requires
        in_order(start, elements),
        0 <= from <= elements.len(),
        meta.state == state_before(start, elements, from),
        meta.state.is_payload(),
    ensures
        traverse(meta, handlers, elements, from) == convey(meta, handlers, elements, from),
    decreases elements.len() - from,
{
    if from < elements.len() {
        let e = elements[from];
        assert(state_before(start, elements, from).rank() <= e.state().rank());
        let then = meta.after(e);
        let (shown, out) = deliver(handlers, then, e);
        assert(dispatch(handlers, then, e, (meta.state, e.state())) == (shown, out));
        lemma_payload_is_conveyed(start, then, shown, elements, from + 1);
    }
}

/// Elements of the payload leave the meta data that are held as they are.
pub proof fn lemma_payload_leaves_meta_data(
    meta: MetaView,
    elements: Seq<ElementView>,
    from: int,
    to: int,
)
    requires
        0 <= from <= to <= elements.len(),
        forall|i: int| from <= i < to ==> (#[trigger] elements[i]).state().is_payload(),
    ensures
        stored(meta, elements, from, to).extensions == meta.extensions,
        stored(meta, elements, from, to).globals == meta.globals,
        stored(meta, elements, from, to).classifiers == meta.classifiers,
        stored(meta, elements, from, to).attributes == meta.attributes,
    decreases to - from,
{
    if from < to {
        assert(elements[from].state().is_payload());
        lemma_payload_leaves_meta_data(meta.after(elements[from]), elements, from + 1, to);
    }
}

/// Taking elements in can be done in two parts.
pub proof fn lemma_stored_in_parts(
    meta: MetaView,
    elements: Seq<ElementView>,
    from: int,
    mid: int,
    to: int,
)
    requires
        0 <= from <= mid <= to <= elements.len(),
    ensures
        stored(meta, elements, from, to) == stored(
            stored(meta, elements, from, mid),
            elements,
            mid,
            to,
        ),
    decreases mid - from,
{
    if from < mid {
        lemma_stored_in_parts(meta.after(elements[from]), elements, from + 1, mid, to);
    }
}

/// A traversal of nothing but meta data, in order, yields every element as
/// it is and in order, and shows no handler anything: no `meta`, no `trace`
/// and no `event` hook is called.
pub proof fn lemma_traversal_of_meta_data<H: Handler>(
    meta: MetaView,
    handlers: Seq<H>,
    elements: Seq<ElementView>,
)
    requires
        in_order(meta.state, elements),
        forall|i: int| 0 <= i < elements.len() ==> !(#[trigger] elements[i]).state().is_payload(),
    ensures
        traverse(meta, handlers, elements, 0) == (Traversal {
            meta: stored(meta, elements, 0, elements.len() as int),
            handlers,
            yielded: elements,
            failure: None,
        }),
{
    let n = elements.len() as int;
    lemma_meta_data_pass_in_a_row(meta.state, meta, handlers, elements, 0, n);
    assert(elements.subrange(0, n) + Seq::<ElementView>::empty() =~= elements);
}

/// In a traversal that starts before any payload and keeps the order, with
/// its first trace or event at `first`, every handler is shown the meta data
/// exactly once: when that element arrives, before it is shown that element
/// or any other. The elements before it pass as they are and are shown to no
/// handler; from it on the elements are delivered, and that is all. The meta
/// data that are shown hold every extension, global, classifier and
/// attribute of the traversal, in order: they are those that are held at its
/// end.
pub proof fn lemma_traversal_shows_meta_data_once<H: Handler>(
    meta: MetaView,
    handlers: Seq<H>,
    elements: Seq<ElementView>,
    first: int,
)
    requires
        in_order(meta.state, elements),
        !meta.state.is_payload(),
        0 <= first < elements.len(),
        elements[first].state().is_payload(),
        forall|i: int| 0 <= i < first ==> !(#[trigger] elements[i]).state().is_payload(),
    ensures
        traverse(meta, handlers, elements, 0) == after_yielding(
            elements.subrange(0, first),
            convey(
                stored(meta, elements, 0, first),
                notify(handlers, stored(meta, elements, 0, first + 1)),
                elements,
                first,
            ),
        ),
        stored(meta, elements, 0, first + 1).extensions == stored(
            meta,
            elements,
            0,
            elements.len() as int,
        ).extensions,
        stored(meta, elements, 0, first + 1).globals == stored(
            meta,
            elements,
            0,
            elements.len() as int,
        ).globals,
        stored(meta, elements, 0, first + 1).classifiers == stored(
            meta,
            elements,
            0,
            elements.len() as int,
        ).classifiers,
        stored(meta, elements, 0, first + 1).attributes == stored(
            meta,
            elements,
            0,
            elements.len() as int,
        ).attributes,
{
    let n = elements.len() as int;
    let start = meta.state;
    lemma_meta_data_pass_in_a_row(start, meta, handlers, elements, 0, first);
    let before = stored(meta, elements, 0, first);
    let e = elements[first];
    assert(state_before(start, elements, first).rank() <= e.state().rank());
    assert(!before.state.is_payload()) by {
        if first > 0 {
            assert(!elements[first - 1].state().is_payload());
        }
    }
    let then = before.after(e);
    lemma_stored_in_parts(meta, elements, 0, first, first + 1);
    assert(stored(before, elements, first, first + 1) == then) by {
        assert(stored(then, elements, first + 1, first + 1) == then);
    }
    let told = notify(handlers, then);
    let (shown, out) = deliver(told, then, e);
    assert(crosses((before.state, e.state())));
    assert(dispatch(handlers, then, e, (before.state, e.state())) == (shown, out));
    assert(then.state == state_before(start, elements, first + 1));
    lemma_payload_is_conveyed(start, then, shown, elements, first + 1);
    assert forall|i: int| first + 1 <= i < n implies (#[trigger] elements[i]).state().is_payload() by {
        lemma_in_order_chain(start, elements, first, i);
    }
    lemma_payload_leaves_meta_data(then, elements, first + 1, n);
    lemma_stored_in_parts(meta, elements, 0, first + 1, n);
}

/// The handlers as they are shown an element that the meta data admit: with
/// the meta data shown to each of them first, if the element is the first of
/// the payload.
pub open spec fn shown_meta_if_due<H: Handler>(
    meta: MetaView,
    handlers: Seq<H>,
    element: ElementView,
) -> Seq<H> {
    if crosses((meta.state, element.state())) {
        notify(handlers, meta.after(element))
    } else {
        handlers
    }
}

/// A trace that the first handler drops is not yielded: it is shown to no
/// other handler, and none of its events is shown to any handler, so that
/// the other handlers are called for the traces that are kept and for no
/// others.
pub proof fn lemma_trace_dropped_by_the_first<H: Handler>(
    meta: MetaView,
    handlers: Seq<H>,
    trace: TraceView,
)
    requires
        meta.admits(ElementView::Trace(trace)),
        handlers.len() > 0,
        shown_meta_if_due(meta, handlers, ElementView::Trace(trace))[0].trace_answer(
            trace,
            meta.after(ElementView::Trace(trace)),
        ) == Ok::<Option<TraceView>, ErrorView>(None),
    ensures
        observe(meta, handlers, ElementView::Trace(trace)) == (
            meta.after(ElementView::Trace(trace)),
            shown_meta_if_due(meta, handlers, ElementView::Trace(trace)).update(
                0,
                shown_meta_if_due(meta, handlers, ElementView::Trace(trace))[0].after_trace(
                    trace,
                    meta.after(ElementView::Trace(trace)),
                ),
            ),
            Ok::<Option<ElementView>, ErrorView>(None),
        ),
{
    let e = ElementView::Trace(trace);
    let then = meta.after(e);
    let told = shown_meta_if_due(meta, handlers, e);
    assert(told.len() == handlers.len());
    assert(pass_trace(told, 0, trace, then) == (
        told.update(0, told[0].after_trace(trace, then)),
        Ok::<Option<TraceView>, ErrorView>(None),
    ));
    assert(dispatch(handlers, then, e, (meta.state, e.state())) == deliver(told, then, e));
}

/// The meta data and the handlers as they are when the element at `i`
/// arrives, in a traversal that begins with the first element.
pub open spec fn arriving<H: Handler>(
    meta: MetaView,
    handlers: Seq<H>,
    elements: Seq<ElementView>,
    i: int,
) -> (MetaView, Seq<H>)
    decreases i,
{
    if i <= 0 || i > elements.len() {
        (meta, handlers)
    } else {
        let (m, h) = arriving(meta, handlers, elements, i - 1);
        let (then, shown, out) = observe(m, h, elements[i - 1]);
        (then, shown)
    }
}

/// What the observer makes of the element at `i` when it arrives: the
/// element as the handlers leave it, nothing where a handler drops it, or the
/// failure.
pub open spec fn verdict_at<H: Handler>(
    meta: MetaView,
    handlers: Seq<H>,
    elements: Seq<ElementView>,
    i: int,
) -> Outcome {
    let (m, h) = arriving(meta, handlers, elements, i);
    observe(m, h, elements[i]).2
}

/// What is left of the element at `i` when it is kept.
pub open spec fn kept_at<H: Handler>(
    meta: MetaView,
    handlers: Seq<H>,
    elements: Seq<ElementView>,
    i: int,
) -> ElementView {
    verdict_at(meta, handlers, elements, i)->Ok_0->Some_0
}

/// The elements from `from` on that are kept, each as the handlers leave it
/// and in order, up to the first failure.
pub open spec fn kept_from<H: Handler>(
    meta: MetaView,
    handlers: Seq<H>,
    elements: Seq<ElementView>,
    from: int,
) -> Seq<ElementView>
    decreases elements.len() - from,
{
    if from < 0 || from >= elements.len() {
        Seq::empty()
    } else {
        match verdict_at(meta, handlers, elements, from) {
            Err(_) => Seq::empty(),
            Ok(None) => kept_from(meta, handlers, elements, from + 1),
            Ok(Some(e)) => seq![e] + kept_from(meta, handlers, elements, from + 1),
        }
    }
}

/// A traversal yields the elements that are kept, each as the handlers leave
/// it and in the order of the stream, and nothing else.
pub proof fn lemma_traversal_yields_what_is_kept<H: Handler>(
    meta: MetaView,
    handlers: Seq<H>,
    elements: Seq<ElementView>,
    from: int,
)
    requires
        0 <= from <= elements.len(),
    ensures
        traverse(
            arriving(meta, handlers, elements, from).0,
            arriving(meta, handlers, elements, from).1,
            elements,
            from,
        ).yielded == kept_from(meta, handlers, elements, from),
    decreases elements.len() - from,
{
    if from < elements.len() {
        lemma_traversal_yields_what_is_kept(meta, handlers, elements, from + 1);
    }
}

/// Where the handlers drop the first, the third, the fifth element and so
/// on, and keep the others, the traversal does not fail and yields half of
/// the elements, rounded down: the second, the fourth and so on, each as the
/// handlers leave it and in the order of the stream.
pub proof fn lemma_every_second_is_yielded<H: Handler>(
    meta: MetaView,
    handlers: Seq<H>,
    elements: Seq<ElementView>,
)
    requires
        forall|i: int|
            0 <= i < elements.len() && i % 2 == 0 ==> #[trigger] verdict_at(
                meta,
                handlers,
                elements,
                i,
            ) == Ok::<Option<ElementView>, ErrorView>(None),
        forall|i: int|
            0 <= i < elements.len() && i % 2 == 1 ==> is_kept(
                #[trigger] verdict_at(meta, handlers, elements, i),
            ),
    ensures
        traverse(meta, handlers, elements, 0).yielded.len() == elements.len() / 2,
        forall|j: int|
            0 <= j < elements.len() / 2 ==> #[trigger] traverse(
                meta,
                handlers,
                elements,
                0,
            ).yielded[j] == kept_at(meta, handlers, elements, 2 * j + 1),
        traverse(meta, handlers, elements, 0).failure is None,
{
    lemma_traversal_yields_what_is_kept(meta, handlers, elements, 0);
    lemma_every_second_is_kept(meta, handlers, elements, 0);
    lemma_traversal_without_failure(meta, handlers, elements, 0);
}

/// True if the element was kept.
pub open spec fn is_kept(verdict: Outcome) -> bool {
    verdict matches Ok(Some(_))
}

/// The elements that are kept from `from` on, where every second is dropped.
pub proof fn lemma_every_second_is_kept<H: Handler>(
    meta: MetaView,
    handlers: Seq<H>,
    elements: Seq<ElementView>,
    from: int,
)
    requires
        0 <= from <= elements.len(),
        forall|i: int|
            0 <= i < elements.len() && i % 2 == 0 ==> #[trigger] verdict_at(
                meta,
                handlers,
                elements,
                i,
            ) == Ok::<Option<ElementView>, ErrorView>(None),
        forall|i: int|
            0 <= i < elements.len() && i % 2 == 1 ==> is_kept(
                #[trigger] verdict_at(meta, handlers, elements, i),
            ),
    ensures
        kept_from(meta, handlers, elements, from).len() == (elements.len() - from + from % 2) / 2,
        forall|j: int|
            0 <= j < (elements.len() - from + from % 2) / 2 ==> #[trigger] kept_from(
                meta,
                handlers,
                elements,
                from,
            )[j] == kept_at(meta, handlers, elements, from + 1 - from % 2 + 2 * j),
    decreases elements.len() - from,
{
    if from < elements.len() {
        lemma_every_second_is_kept(meta, handlers, elements, from + 1);
        let rest = kept_from(meta, handlers, elements, from + 1);
        if from % 2 == 0 {
            assert(verdict_at(meta, handlers, elements, from) == Ok::<
                Option<ElementView>,
                ErrorView,
            >(None));
            assert(kept_from(meta, handlers, elements, from) == rest);
        } else {
            assert(is_kept(verdict_at(meta, handlers, elements, from)));
            let e = kept_at(meta, handlers, elements, from);
            assert(kept_from(meta, handlers, elements, from) == seq![e] + rest);
            assert forall|j: int|
                0 <= j < (elements.len() - from + from % 2) / 2 implies #[trigger] kept_from(
                meta,
                handlers,
                elements,
                from,
            )[j] == kept_at(meta, handlers, elements, from + 1 - from % 2 + 2 * j) by {
                if j > 0 {
                    assert((seq![e] + rest)[j] == rest[j - 1]);
                }
            }
        }
    }
}

/// A traversal in which no element fails does not fail.
pub proof fn lemma_traversal_without_failure<H: Handler>(
    meta: MetaView,
    handlers: Seq<H>,
    elements: Seq<ElementView>,
    from: int,
)
    requires
        0 <= from <= elements.len(),
        forall|i: int|
            0 <= i < elements.len() ==> #[trigger] verdict_at(meta, handlers, elements, i) is Ok,
    ensures
        traverse(
            arriving(meta, handlers, elements, from).0,
            arriving(meta, handlers, elements, from).1,
            elements,
            from,
        ).failure is None,
    decreases elements.len() - from,
{
    if from < elements.len() {
        assert(verdict_at(meta, handlers, elements, from) is Ok);
        lemma_traversal_without_failure(meta, handlers, elements, from + 1);
    }
}

} // verus!
