//! Observation of a stream: handlers that are shown the meta data once and
//! every trace and event, and that may change or drop what they are shown.

use vstd::prelude::*;

use crate::error::{Error, ErrorView};
use crate::model::{views, Event, EventView, Trace, TraceView};
use crate::stream::state::{
    crosses, in_order, lemma_single_crossing, state_before, Meta, MetaView, StreamState,
    Transition,
};
use crate::stream::{answer, exhausted, outcome, Element, ElementView, Outcome, ResOpt, Stream};

verus! {

/// Gets registered with an observer while providing callbacks.
///
/// `meta` is invoked once per stream, when the first trace or event arrives.
/// `trace` is invoked on every trace, `event` on every event, whether or not
/// it is part of a trace. Both may hand back what they were given, a changed
/// value, or `None` to drop it; a hook that does nothing hands back what it
/// was given. What a hook does is a function of the handler and of what it is
/// shown: the `after_` and `_answer` functions say which.
///
/// A verified handler defines those functions and proves that its hooks do
/// what they say. Their bodies, which are those of a handler that does
/// nothing, are there only so that a handler outside verified code can leave
/// them out.
pub trait Handler: Sized {
    /// The handler after it was shown the meta data.
    open spec fn after_meta(&self, meta: MetaView) -> Self {
        *self
    }

    /// The handler after it was shown the trace.
    open spec fn after_trace(&self, trace: TraceView, meta: MetaView) -> Self {
        *self
    }

    /// What the handler answers when shown the trace.
    open spec fn trace_answer(&self, trace: TraceView, meta: MetaView) -> Result<
        Option<TraceView>,
        ErrorView,
    > {
        Ok(Some(trace))
    }

    /// The handler after it was shown the event.
    open spec fn after_event(&self, event: EventView, in_trace: bool, meta: MetaView) -> Self {
        *self
    }

    /// What the handler answers when shown the event.
    open spec fn event_answer(&self, event: EventView, in_trace: bool, meta: MetaView) -> Result<
        Option<EventView>,
        ErrorView,
    > {
        Ok(Some(event))
    }

    /// Handle stream meta data.
    fn meta(&mut self, meta: &Meta)
        ensures
            *final(self) == old(self).after_meta(meta@),
    ;

    /// Handle a trace.
    fn trace(&mut self, trace: Trace, meta: &Meta) -> (r: Result<Option<Trace>, Error>)
        ensures
            *final(self) == old(self).after_trace(trace@, meta@),
            answer(r) == old(self).trace_answer(trace@, meta@),
    ;

    /// Handle an event; `in_trace` tells whether it is part of a trace.
    fn event(&mut self, event: Event, in_trace: bool, meta: &Meta) -> (r: Result<
        Option<Event>,
        Error,
    >)
        ensures
            *final(self) == old(self).after_event(event@, in_trace, meta@),
            answer(r) == old(self).event_answer(event@, in_trace, meta@),
    ;
}

/// The handlers after each was shown the meta data.
pub open spec fn notify<H: Handler>(handlers: Seq<H>, meta: MetaView) -> Seq<H> {
    Seq::new(handlers.len(), |j: int| handlers[j].after_meta(meta))
}

/// A trace is shown to the handlers from `from` on, each seeing what the one
/// before handed back, until one drops it or fails: the handlers afterwards,
/// and the last answer.
pub open spec fn pass_trace<H: Handler>(
    handlers: Seq<H>,
    from: int,
    trace: TraceView,
    meta: MetaView,
) -> (Seq<H>, Result<Option<TraceView>, ErrorView>)
    decreases handlers.len() - from,
{
    if from < 0 || from >= handlers.len() {
        (handlers, Ok(Some(trace)))
    } else {
        let said = handlers[from].trace_answer(trace, meta);
        let then = handlers.update(from, handlers[from].after_trace(trace, meta));
        match said {
            Ok(Some(t)) => pass_trace(then, from + 1, t, meta),
            _ => (then, said),
        }
    }
}

/// An event is shown to the handlers from `from` on, each seeing what the one
/// before handed back, until one drops it or fails: the handlers afterwards,
/// and the last answer.
pub open spec fn pass_event<H: Handler>(
    handlers: Seq<H>,
    from: int,
    event: EventView,
    in_trace: bool,
    meta: MetaView,
) -> (Seq<H>, Result<Option<EventView>, ErrorView>)
    decreases handlers.len() - from,
{
    if from < 0 || from >= handlers.len() {
        (handlers, Ok(Some(event)))
    } else {
        let said = handlers[from].event_answer(event, in_trace, meta);
        let then = handlers.update(from, handlers[from].after_event(event, in_trace, meta));
        match said {
            Ok(Some(e)) => pass_event(then, from + 1, e, in_trace, meta),
            _ => (then, said),
        }
    }
}

/// The events of a trace from `from` on are passed through the handlers one
/// after the other, in their order; those that no handler dropped are added
/// to `kept`, in the same order. The first failure ends it.
pub open spec fn pass_events<H: Handler>(
    handlers: Seq<H>,
    events: Seq<EventView>,
    from: int,
    kept: Seq<EventView>,
    meta: MetaView,
) -> (Seq<H>, Result<Seq<EventView>, ErrorView>)
    decreases events.len() - from,
{
    if from < 0 || from >= events.len() {
        (handlers, Ok(kept))
    } else {
        let (then, said) = pass_event(handlers, 0, events[from], true, meta);
        match said {
            Ok(Some(e)) => pass_events(then, events, from + 1, kept.push(e), meta),
            Ok(None) => pass_events(then, events, from + 1, kept, meta),
            Err(x) => (then, Err(x)),
        }
    }
}

/// What the handlers make of an element: the handlers afterwards, and what
/// is yielded.
///
/// A trace goes through the `trace` hooks; if none drops it, its events go
/// through the `event` hooks and those that are kept stay in it. An event
/// outside a trace goes through the `event` hooks. Anything else passes
/// unchanged and is shown to no handler.
pub open spec fn deliver<H: Handler>(handlers: Seq<H>, meta: MetaView, element: ElementView) -> (
    Seq<H>,
    Outcome,
) {
    match element {
        ElementView::Trace(t) => {
            let (then, said) = pass_trace(handlers, 0, t, meta);
            match said {
                Ok(Some(t2)) => {
                    let (last, kept) = pass_events(then, t2.events, 0, Seq::empty(), meta);
                    match kept {
                        Ok(events) => (
                            last,
                            Ok(
                                Some(
                                    ElementView::Trace(
                                        TraceView { attributes: t2.attributes, events },
                                    ),
                                ),
                            ),
                        ),
                        Err(x) => (last, Err(x)),
                    }
                },
                Ok(None) => (then, Ok(None)),
                Err(x) => (then, Err(x)),
            }
        },
        ElementView::Event(e) => {
            let (then, said) = pass_event(handlers, 0, e, false, meta);
            match said {
                Ok(Some(e2)) => (then, Ok(Some(ElementView::Event(e2)))),
                Ok(None) => (then, Ok(None)),
                Err(x) => (then, Err(x)),
            }
        },
        other => (handlers, Ok(Some(other))),
    }
}

/// What the handlers make of an element that arrived with the given
/// transition: the handlers afterwards, and what is yielded.
///
/// Where the transition enters the payload, every handler is shown the meta
/// data first; then the element is delivered. No other transition shows the
/// meta data.
pub open spec fn dispatch<H: Handler>(
    handlers: Seq<H>,
    meta: MetaView,
    element: ElementView,
    transition: Transition,
) -> (Seq<H>, Outcome) {
    if crosses(transition) {
        deliver(notify(handlers, meta), meta, element)
    } else {
        deliver(handlers, meta, element)
    }
}

/// Passing an event leaves as many handlers as there were.
pub proof fn lemma_pass_event_len<H: Handler>(
    handlers: Seq<H>,
    from: int,
    event: EventView,
    in_trace: bool,
    meta: MetaView,
)
    ensures
        pass_event(handlers, from, event, in_trace, meta).0.len() == handlers.len(),
    decreases handlers.len() - from,
{
    if 0 <= from < handlers.len() {
        let said = handlers[from].event_answer(event, in_trace, meta);
        let then = handlers.update(from, handlers[from].after_event(event, in_trace, meta));
        match said {
            Ok(Some(e)) => lemma_pass_event_len(then, from + 1, e, in_trace, meta),
            _ => {},
        }
    }
}

/// Shows the meta data to every handler, in the order of registration.
fn notify_all<H: Handler>(handlers: &mut Vec<H>, meta: &Meta)
    ensures
        final(handlers)@ == notify(old(handlers)@, meta@),
{
    let mut i: usize = 0;
    while i < handlers.len()
        invariant
            handlers@.len() == old(handlers)@.len(),
            0 <= i <= handlers@.len(),
            forall|j: int| 0 <= j < i ==> handlers@[j] == old(handlers)@[j].after_meta(meta@),
            forall|j: int| i <= j < handlers@.len() ==> handlers@[j] == old(handlers)@[j],
        decreases handlers@.len() - i,
    {
        handlers[i].meta(meta);
        i = i + 1;
    }
    proof {
        assert(handlers@ =~= notify(old(handlers)@, meta@));
    }
}

/// Passes a trace through the `trace` hooks, in the order of registration.
fn filter_trace<H: Handler>(handlers: &mut Vec<H>, trace: Trace, meta: &Meta) -> (r: Result<
    Option<Trace>,
    Error,
>)
    ensures
        (final(handlers)@, answer(r)) == pass_trace(old(handlers)@, 0, trace@, meta@),
{
    let mut current = trace;
    let mut i: usize = 0;
    while i < handlers.len()
        invariant
            handlers@.len() == old(handlers)@.len(),
            0 <= i <= handlers@.len(),
            pass_trace(old(handlers)@, 0, trace@, meta@) == pass_trace(
                handlers@,
                i as int,
                current@,
                meta@,
            ),
        decreases handlers@.len() - i,
    {
        let ghost before = handlers@;
        let ghost shown = current@;
        let said = handlers[i].trace(current, meta);
        proof {
            assert(handlers@ =~= before.update(
                i as int,
                before[i as int].after_trace(shown, meta@),
            ));
        }
        match said {
            Ok(Some(t)) => {
                current = t;
            },
            Ok(None) => {
                return Ok(None);
            },
            Err(e) => {
                return Err(e);
            },
        }
        i = i + 1;
    }
    Ok(Some(current))
}

/// Passes an event through the `event` hooks, in the order of registration.
fn filter_event<H: Handler>(
    handlers: &mut Vec<H>,
    event: Event,
    in_trace: bool,
    meta: &Meta,
) -> (r: Result<Option<Event>, Error>)
    ensures
        (final(handlers)@, answer(r)) == pass_event(old(handlers)@, 0, event@, in_trace, meta@),
{
    let mut current = event;
    let mut i: usize = 0;
    while i < handlers.len()
        invariant
            handlers@.len() == old(handlers)@.len(),
            0 <= i <= handlers@.len(),
            pass_event(old(handlers)@, 0, event@, in_trace, meta@) == pass_event(
                handlers@,
                i as int,
                current@,
                in_trace,
                meta@,
            ),
        decreases handlers@.len() - i,
    {
        let ghost before = handlers@;
        let ghost shown = current@;
        let said = handlers[i].event(current, in_trace, meta);
        proof {
            assert(handlers@ =~= before.update(
                i as int,
                before[i as int].after_event(shown, in_trace, meta@),
            ));
        }
        match said {
            Ok(Some(e)) => {
                current = e;
            },
            Ok(None) => {
                return Ok(None);
            },
            Err(e) => {
                return Err(e);
            },
        }
        i = i + 1;
    }
    Ok(Some(current))
}

/// Passes the events of a trace through the `event` hooks, first event
/// first, and collects those that are kept.
fn filter_events<H: Handler>(handlers: &mut Vec<H>, events: Vec<Event>, meta: &Meta) -> (r: Result<
    Vec<Event>,
    Error,
>)
    ensures
        final(handlers)@ == pass_events(
            old(handlers)@,
            views(events@),
            0,
            Seq::empty(),
            meta@,
        ).0,
        match r {
            Ok(kept) => pass_events(old(handlers)@, views(events@), 0, Seq::empty(), meta@).1
                == Ok::<Seq<EventView>, ErrorView>(views(kept@)),
            Err(e) => pass_events(old(handlers)@, views(events@), 0, Seq::empty(), meta@).1
                == Err::<Seq<EventView>, ErrorView>(e@),
        },
{
    let mut rest = events;
    let ghost shown = views(events@);
    let mut kept: Vec<Event> = Vec::new();
    let mut i: usize = 0;
    proof {
        assert(views(kept@) =~= Seq::<EventView>::empty());
    }
    while i < rest.len()
        invariant
            handlers@.len() == old(handlers)@.len(),
            0 <= i <= rest@.len(),
            shown == views(events@),
            rest@.len() == shown.len(),
            forall|j: int| i <= j < rest@.len() ==> (#[trigger] rest@[j])@ == shown[j],
            pass_events(old(handlers)@, shown, 0, Seq::empty(), meta@) == pass_events(
                handlers@,
                shown,
                i as int,
                views(kept@),
                meta@,
            ),
        decreases rest@.len() - i,
    {
        let mut event = Event { attributes: Vec::new() };
        core::mem::swap(&mut event, &mut rest[i]);
        proof {
            lemma_pass_event_len(handlers@, 0, event@, true, meta@);
        }
        let said = filter_event(handlers, event, true, meta);
        match said {
            Ok(Some(e)) => {
                proof {
                    crate::model::lemma_views_push(kept@, e);
                }
                kept.push(e);
            },
            Ok(None) => {},
            Err(e) => {
                return Err(e);
            },
        }
        i = i + 1;
    }
    Ok(kept)
}

/// What an observer makes of one element: the meta data and the handlers
/// afterwards, and what is yielded.
///
/// The meta data take the element in first. Where they refuse it, the
/// handlers are not asked and the violation of the order is the result;
/// otherwise the handlers are shown the element with the meta data as they
/// then are.
pub open spec fn observe<H: Handler>(meta: MetaView, handlers: Seq<H>, element: ElementView) -> (
    MetaView,
    Seq<H>,
    Outcome,
) {
    let then = meta.after(element);
    match meta.report(element) {
        Err(e) => (then, handlers, Err(e)),
        Ok(t) => {
            let (shown, out) = dispatch(handlers, then, element, t);
            (then, shown, out)
        },
    }
}

/// What an observer makes of the pulls from `from` on, up to the first that
/// gives something to yield: the meta data and the handlers afterwards, what
/// is yielded, and the number of pulls that were needed up to there. `None`
/// where the pulls run out before that.
///
/// An element that the handlers drop is followed by the next pull; the end
/// of the stream, its failure, a refused element and an element that is kept
/// each end the run.
pub open spec fn observe_run<H: Handler>(
    meta: MetaView,
    handlers: Seq<H>,
    pulls: Seq<Outcome>,
    from: int,
) -> Option<(MetaView, Seq<H>, Outcome, int)>
    decreases pulls.len() - from,
{
    if from < 0 || from >= pulls.len() {
        None
    } else {
        match pulls[from] {
            Ok(Some(e)) => {
                let (then, shown, out) = observe(meta, handlers, e);
                if out == Ok::<Option<ElementView>, ErrorView>(None) {
                    observe_run(then, shown, pulls, from + 1)
                } else {
                    Some((then, shown, out, from + 1))
                }
            },
            Ok(None) => Some((meta, handlers, Ok(None), from + 1)),
            Err(x) => Some((meta, handlers, Err(x), from + 1)),
        }
    }
}

/// True if `longer` begins with `shorter`.
pub open spec fn continues(longer: Seq<Outcome>, shorter: Seq<Outcome>) -> bool {
    longer.len() >= shorter.len() && longer.take(shorter.len() as int) == shorter
}

/// Observes a stream and invokes registered callbacks.
///
/// An observer keeps copies of the meta data elements, manages an arbitrary
/// number of registered handlers and invokes their callbacks. Further, it
/// checks that the elements of the stream occur in a valid order. Within a
/// trace the events are shown to the handlers, and kept, in their order.
pub struct Observer<I: Stream, H: Handler> {
    stream: I,
    meta: Meta,
    handler: Vec<H>,
    reported: Ghost<Seq<Outcome>>,
}

impl<I: Stream, H: Handler> Observer<I, H> {
    /// The stream that is observed.
    pub closed spec fn source(&self) -> I {
        self.stream
    }

    /// The meta data seen so far.
    pub closed spec fn meta_view(&self) -> MetaView {
        self.meta@
    }

    /// The registered handlers, first registered first.
    pub closed spec fn handlers(&self) -> Seq<H> {
        self.handler@
    }

    /// Create new observer.
    pub fn new(stream: I) -> (r: Self)
        requires
            stream.inv(),
        ensures
            r.inv(),
            r.source() == stream,
            r.meta_view() == MetaView::initial(),
            r.handlers() == Seq::<H>::empty(),
            r.history() == Seq::<Outcome>::empty(),
    {
        Observer { stream, meta: Meta::default(), handler: Vec::new(), reported: Ghost(Seq::empty()) }
    }

    /// Register a new handler.
    pub fn register(&mut self, handler: H) -> (r: &mut Self)
        ensures
            r.handlers() == old(self).handlers().push(handler),
            r.source() == old(self).source(),
            r.meta_view() == old(self).meta_view(),
            r.history() == old(self).history(),
            old(self).inv() ==> r.inv(),
            *final(self) == *final(r),
    {
        self.handler.push(handler);
        self
    }

    /// Release handler (opposite registering order).
    pub fn release(&mut self) -> (r: Option<H>)
        ensures
            match r {
                Some(h) => old(self).handlers().len() > 0 && h == old(self).handlers().last()
                    && final(self).handlers() == old(self).handlers().drop_last(),
                None => old(self).handlers().len() == 0 && final(self).handlers() == old(
                    self,
                ).handlers(),
            },
            final(self).source() == old(self).source(),
            final(self).meta_view() == old(self).meta_view(),
            final(self).history() == old(self).history(),
            old(self).inv() ==> final(self).inv(),
    {
        self.handler.pop()
    }

    /// Shows an element that arrived with the given transition to the
    /// handlers, and says what is to be yielded: the element as the handlers
    /// left it, or nothing where a handler dropped it.
    pub fn handle_element(&mut self, element: Element, transition: Transition) -> (r: ResOpt)
        ensures
            (final(self).handlers(), outcome(r)) == dispatch(
                old(self).handlers(),
                old(self).meta_view(),
                element@,
                transition,
            ),
            final(self).source() == old(self).source(),
            final(self).meta_view() == old(self).meta_view(),
            final(self).history() == old(self).history(),
            old(self).inv() ==> final(self).inv(),
    {
        let (before, after) = transition;
        if before.position() < 4 && after.position() >= 4 {
            notify_all(&mut self.handler, &self.meta);
        }
        match element {
            Element::Trace(trace) => {
                match filter_trace(&mut self.handler, trace, &self.meta) {
                    Ok(Some(kept)) => {
                        let Trace { attributes, events } = kept;
                        match filter_events(&mut self.handler, events, &self.meta) {
                            Ok(events) => Ok(Some(Element::Trace(Trace { attributes, events }))),
                            Err(e) => Err(e),
                        }
                    },
                    Ok(None) => Ok(None),
                    Err(e) => Err(e),
                }
            },
            Element::Event(event) => {
                match filter_event(&mut self.handler, event, false, &self.meta) {
                    Ok(Some(kept)) => Ok(Some(Element::Event(kept))),
                    Ok(None) => Ok(None),
                    Err(e) => Err(e),
                }
            },
            other => Ok(Some(other)),
        }
    }
}

impl<I: Stream, H: Handler> Stream for Observer<I, H> {
    closed spec fn inv(&self) -> bool {
        &&& self.stream.inv()
        &&& exhausted(self.reported@) ==> exhausted(self.stream.history())
    }

    closed spec fn history(&self) -> Seq<Outcome> {
        self.reported@
    }

    closed spec fn remaining(&self) -> nat {
        self.stream.remaining()
    }

    /// Pulls the observed stream until there is something to yield: an
    /// element that the meta data admit and the handlers keep, the end of the
    /// stream, or the first failure.
    fn next(&mut self) -> (r: ResOpt)
        ensures
            continues(final(self).source().history(), old(self).source().history()),
            observe_run(
                old(self).meta_view(),
                old(self).handlers(),
                final(self).source().history(),
                old(self).source().history().len() as int,
            ) == Some(
                (
                    final(self).meta_view(),
                    final(self).handlers(),
                    outcome(r),
                    final(self).source().history().len() as int,
                ),
            ),
    {
        let ghost meta0 = self.meta@;
        let ghost handlers0 = self.handler@;
        let ghost pulls0 = self.stream.history();
        let ghost reported0 = self.reported@;
        proof {
            assert(pulls0.take(pulls0.len() as int) =~= pulls0);
        }
        loop
            invariant
                self.stream.inv(),
                self.reported@ == reported0,
                reported0 == old(self).reported@,
                pulls0 == old(self).stream.history(),
                meta0 == old(self).meta@,
                handlers0 == old(self).handler@,
                exhausted(reported0) ==> exhausted(pulls0),
                exhausted(pulls0) ==> self.stream.history() == pulls0,
                self.stream.remaining() <= old(self).stream.remaining(),
                self.stream.history() != pulls0 ==> self.stream.remaining() < old(
                    self,
                ).stream.remaining(),
                continues(self.stream.history(), pulls0),
                forall|x: Seq<Outcome>| #[trigger]
                    continues(x, self.stream.history()) ==> observe_run(
                        meta0,
                        handlers0,
                        x,
                        pulls0.len() as int,
                    ) == observe_run(self.meta@, self.handler@, x, self.stream.history().len() as int),
            decreases self.stream.remaining(),
        {
            let ghost pulls = self.stream.history();
            let ghost meta = self.meta@;
            let ghost handlers = self.handler@;
            let pulled = self.stream.next();
            proof {
                assert(self.stream.history().take(pulls0.len() as int) =~= pulls.take(
                    pulls0.len() as int,
                ));
                assert(self.stream.history().take(pulls.len() as int) =~= pulls);
                assert(continues(self.stream.history(), pulls));
                assert(self.stream.history().take(self.stream.history().len() as int)
                    =~= self.stream.history());
                assert(continues(self.stream.history(), self.stream.history()));
            }
            match pulled {
                Err(e) => {
                    self.reported = Ghost(self.reported@.push(Err(e@)));
                    return Err(e);
                },
                Ok(None) => {
                    self.reported = Ghost(self.reported@.push(Ok(None)));
                    return Ok(None);
                },
                Ok(Some(element)) => {
                    let ghost shown = element@;
                    match self.meta.update(&element) {
                        Err(e) => {
                            self.reported = Ghost(self.reported@.push(Err(e@)));
                            return Err(e);
                        },
                        Ok(transition) => {
                            match self.handle_element(element, transition) {
                                Err(e) => {
                                    self.reported = Ghost(self.reported@.push(Err(e@)));
                                    return Err(e);
                                },
                                Ok(Some(kept)) => {
                                    self.reported = Ghost(self.reported@.push(Ok(Some(kept@))));
                                    return Ok(Some(kept));
                                },
                                Ok(None) => {
                                    proof {
                                        let now = self.stream.history();
                                        assert forall|x: Seq<Outcome>| #[trigger]
                                            continues(x, now) implies observe_run(
                                            meta0,
                                            handlers0,
                                            x,
                                            pulls0.len() as int,
                                        ) == observe_run(
                                            self.meta@,
                                            self.handler@,
                                            x,
                                            now.len() as int,
                                        ) by {
                                            assert(x.take(pulls.len() as int) =~= now.take(
                                                pulls.len() as int,
                                            ));
                                            assert(continues(x, pulls));
                                            assert(x[pulls.len() as int] == now[pulls.len() as int]);
                                        }
                                    }
                                },
                            }
                        },
                    }
                },
            }
        }
    }
}

/// A handler that drops a trace is the last to be shown it: the handlers
/// after it stay as they were.
pub proof fn lemma_dropped_trace_goes_no_further<H: Handler>(
    handlers: Seq<H>,
    from: int,
    trace: TraceView,
    meta: MetaView,
)
    requires
        0 <= from < handlers.len(),
        handlers[from].trace_answer(trace, meta) == Ok::<Option<TraceView>, ErrorView>(None),
    ensures
        pass_trace(handlers, from, trace, meta) == (
            handlers.update(from, handlers[from].after_trace(trace, meta)),
            Ok::<Option<TraceView>, ErrorView>(None),
        ),
{
}

/// Where a handler drops a trace, nothing is yielded and no handler is shown
/// any of its events: the handlers are left as the `trace` hooks left them.
pub proof fn lemma_dropped_trace_shows_no_event<H: Handler>(
    handlers: Seq<H>,
    meta: MetaView,
    trace: TraceView,
)
    requires
        pass_trace(handlers, 0, trace, meta).1 == Ok::<Option<TraceView>, ErrorView>(None),
    ensures
        deliver(handlers, meta, ElementView::Trace(trace)) == (
            pass_trace(handlers, 0, trace, meta).0,
            Ok::<Option<ElementView>, ErrorView>(None),
        ),
{
}

/// An element of the meta data passes unchanged, and the handlers stay as
/// they are: it is shown to none of them, and its transition, which cannot
/// enter the payload, does not show them the meta data either.
pub proof fn lemma_meta_data_pass<H: Handler>(
    handlers: Seq<H>,
    meta: MetaView,
    element: ElementView,
    before: StreamState,
)
    requires
        !element.state().is_payload(),
    ensures
        dispatch(handlers, meta, element, (before, element.state())) == (
            handlers,
            Ok::<Option<ElementView>, ErrorView>(Some(element)),
        ),
{
}

/// In a traversal that starts with nothing seen and keeps the order, the
/// handlers are shown the meta data when the first trace or event arrives,
/// before they are shown that element, and at no other element: once if
/// there is payload, never if there is none.
pub proof fn lemma_meta_shown_once<H: Handler>(
    handlers: Seq<H>,
    meta: MetaView,
    elements: Seq<ElementView>,
    i: int,
)
    requires
        in_order(StreamState::Extension, elements),
        0 <= i < elements.len(),
    ensures
        dispatch(
            handlers,
            meta,
            elements[i],
            (state_before(StreamState::Extension, elements, i), elements[i].state()),
        ) == if elements[i].state().is_payload() && forall|j: int|
            0 <= j < i ==> !(#[trigger] elements[j]).state().is_payload() {
            deliver(notify(handlers, meta), meta, elements[i])
        } else {
            deliver(handlers, meta, elements[i])
        },
{
    lemma_single_crossing(elements, i);
}

} // verus!
