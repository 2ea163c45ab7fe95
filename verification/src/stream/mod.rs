//! Extensible event streams: the pull and push contracts and what stands
//! between producer and consumer.

use vstd::prelude::*;

use crate::error::{Error, ErrorView};
use crate::model::{
    Attribute, AttributeView, Classifier, ClassifierView, Event, EventView, Extension,
    ExtensionView, Global, GlobalView, Trace, TraceView,
};

pub mod frame;
pub mod markup;
pub mod observer;
pub mod reader;
pub mod state;
pub mod traversal;
pub mod writer;
pub mod xes;
pub mod xml;
pub mod xml_util;

pub use crate::stream::observer::{Handler, Observer};
pub use crate::stream::state::{Meta, MetaView, StreamState};

verus! {

/// Atomic unit of an extensible event stream.
#[derive(Debug)]
pub enum Element {
    Extension(Extension),
    Global(Global),
    Classifier(Classifier),
    Attribute(Attribute),
    Trace(Trace),
    Event(Event),
}

/// What an [`Element`] denotes.
pub enum ElementView {
    Extension(ExtensionView),
    Global(GlobalView),
    Classifier(ClassifierView),
    Attribute(AttributeView),
    Trace(TraceView),
    Event(EventView),
}

impl View for Element {
    type V = ElementView;

    open spec fn view(&self) -> ElementView {
        match self {
            Element::Extension(e) => ElementView::Extension(e@),
            Element::Global(g) => ElementView::Global(g@),
            Element::Classifier(c) => ElementView::Classifier(c@),
            Element::Attribute(a) => ElementView::Attribute(a@),
            Element::Trace(t) => ElementView::Trace(t@),
            Element::Event(e) => ElementView::Event(e@),
        }
    }
}

impl Clone for Element {
    fn clone(&self) -> (r: Self)
        ensures
            r@ == self@,
    {
        match self {
            Element::Extension(e) => Element::Extension(e.clone()),
            Element::Global(g) => Element::Global(g.clone()),
            Element::Classifier(c) => Element::Classifier(c.clone()),
            Element::Attribute(a) => Element::Attribute(a.clone()),
            Element::Trace(t) => Element::Trace(t.clone()),
            Element::Event(e) => Element::Event(e.clone()),
        }
    }
}

impl ElementView {
    /// The state that a stream is in once it has yielded this element.
    pub open spec fn state(self) -> StreamState {
        match self {
            ElementView::Extension(_) => StreamState::Extension,
            ElementView::Global(_) => StreamState::Global,
            ElementView::Classifier(_) => StreamState::Classifier,
            ElementView::Attribute(_) => StreamState::Attribute,
            ElementView::Trace(_) => StreamState::Trace,
            ElementView::Event(_) => StreamState::Event,
        }
    }
}

/// Container for stream elements that can express the empty element as well as errors.
pub type ResOpt = Result<Option<Element>, Error>;

/// What the result of a pull denotes.
pub open spec fn outcome(r: ResOpt) -> Result<Option<ElementView>, ErrorView> {
    match r {
        Ok(Some(e)) => Ok(Some(e@)),
        Ok(None) => Ok(None),
        Err(e) => Err(e@),
    }
}

/// What the answer of a hook that may keep, drop or refuse a value denotes.
pub open spec fn answer<T: View>(r: Result<Option<T>, Error>) -> Result<Option<T::V>, ErrorView> {
    match r {
        Ok(Some(t)) => Ok(Some(t@)),
        Ok(None) => Ok(None),
        Err(e) => Err(e@),
    }
}

/// What the result of a hook without a value denotes.
pub open spec fn verdict(r: Result<(), Error>) -> Result<(), ErrorView> {
    match r {
        Ok(_) => Ok(()),
        Err(e) => Err(e@),
    }
}

/// What a pull can report.
pub type Outcome = Result<Option<ElementView>, ErrorView>;

/// Extensible event streams.
///
/// Yields one stream element at a time: `Ok(Some(..))` for an element,
/// `Ok(None)` once the stream is exhausted, `Err(..)` where it failed. What a
/// stream has reported so far is its history.
///
/// A verified stream defines `inv`, `history` and `remaining` and proves what
/// `next` promises of them. They have bodies only so that a stream outside
/// verified code can leave them out.
pub trait Stream {
    /// What must hold of the stream for it to be pulled.
    open spec fn inv(&self) -> bool {
        true
    }

    /// Everything that the stream has reported so far, oldest first.
    open spec fn history(&self) -> Seq<Outcome> {
        Seq::empty()
    }

    /// A bound on the number of elements that the stream can still yield.
    open spec fn remaining(&self) -> nat {
        0
    }

    /// Returns the next stream element.
    ///
    /// A stream that has reported its end reports it again, whenever it is
    /// pulled.
    fn next(&mut self) -> (r: ResOpt)
        requires
            old(self).inv(),
        ensures
            final(self).inv(),
            final(self).history() == old(self).history().push(outcome(r)),
            exhausted(old(self).history()) ==> r matches Ok(None),
            final(self).remaining() <= old(self).remaining(),
            r matches Ok(Some(_)) ==> final(self).remaining() < old(self).remaining(),
    ;
}

/// True of the history of a stream that has reported its end.
pub open spec fn exhausted(history: Seq<Outcome>) -> bool {
    history.len() > 0 && history.last() == Ok::<Option<ElementView>, ErrorView>(None)
}

/// True if the pull reported an element.
pub open spec fn is_element(pulled: Outcome) -> bool {
    pulled matches Ok(Some(_))
}

/// True if every report in the history is an element.
pub open spec fn all_elements(history: Seq<Outcome>) -> bool {
    forall|i: int| 0 <= i < history.len() ==> is_element(#[trigger] history[i])
}

/// What a sink can be told.
pub enum SinkCall {
    Open,
    Element(ElementView),
    Close,
    Error(ErrorView),
}

/// One call of a hook of a sink, and what the hook answered.
pub struct SinkRecord {
    pub call: SinkCall,
    pub result: Result<(), ErrorView>,
}

/// The call by which a sink is told of what a pull reported.
pub open spec fn call_for(pulled: Outcome) -> SinkCall {
    match pulled {
        Ok(Some(e)) => SinkCall::Element(e),
        Ok(None) => SinkCall::Close,
        Err(e) => SinkCall::Error(e),
    }
}

/// Stream endpoint.
///
/// A sink is told when a stream opens, of each element, and of its end or
/// failure. The calls that a sink has received, each with its answer, are
/// its journal. A hook that has nothing to do answers `Ok(())`.
///
/// A verified sink defines `inv` and `journal` and proves what the hooks
/// promise of them. They have bodies only so that a sink outside verified
/// code can leave them out.
pub trait StreamSink {
    /// What must hold of the sink for a hook to be called.
    open spec fn inv(&self) -> bool {
        true
    }

    /// Every call that the sink has received so far, oldest first.
    open spec fn journal(&self) -> Seq<SinkRecord> {
        Seq::empty()
    }

    /// Invoked when the stream is opened.
    fn on_open(&mut self) -> (r: Result<(), Error>)
        requires
            old(self).inv(),
        ensures
            final(self).inv(),
            final(self).journal() == old(self).journal().push(
                SinkRecord { call: SinkCall::Open, result: verdict(r) },
            ),
    ;

    /// Invoked on each stream element.
    fn on_element(&mut self, element: Element) -> (r: Result<(), Error>)
        requires
            old(self).inv(),
        ensures
            final(self).inv(),
            final(self).journal() == old(self).journal().push(
                SinkRecord { call: SinkCall::Element(element@), result: verdict(r) },
            ),
    ;

    /// Invoked once the stream is closed.
    fn on_close(&mut self) -> (r: Result<(), Error>)
        requires
            old(self).inv(),
        ensures
            final(self).inv(),
            final(self).journal() == old(self).journal().push(
                SinkRecord { call: SinkCall::Close, result: verdict(r) },
            ),
    ;

    /// Invoked when the stream failed.
    fn on_error(&mut self, error: Error) -> (r: Result<(), Error>)
        requires
            old(self).inv(),
        ensures
            final(self).inv(),
            final(self).journal() == old(self).journal().push(
                SinkRecord { call: SinkCall::Error(error@), result: verdict(r) },
            ),
    ;

    /// Invokes a stream as long as it provides new elements.
    ///
    /// The sink is opened; then the stream is pulled and each report handed
    /// to the sink, until the stream ends or fails or the sink refuses.
    fn consume<T: Stream>(&mut self, stream: &mut T) -> (r: Result<(), Error>)
        requires
            old(self).inv(),
            old(stream).inv(),
        ensures
            final(self).inv(),
            final(stream).inv(),
            drained(
                old(stream).history(),
                final(stream).history(),
                old(self).journal(),
                final(self).journal(),
                verdict(r),
            ),
    {
        let ghost pulled0 = stream.history();
        let ghost journal0 = self.journal();
        match self.on_open() {
            Ok(_) => {},
            Err(e) => {
                proof {
                    assert(stream.history().take(pulled0.len() as int) =~= pulled0);
                    assert(self.journal().take(journal0.len() as int) =~= journal0);
                }
                return Err(e);
            },
        }
        proof {
            assert(stream.history().take(pulled0.len() as int) =~= pulled0);
            assert(self.journal().take(journal0.len() as int) =~= journal0);
        }
        loop
            invariant
                self.inv(),
                stream.inv(),
                pulled0 == old(stream).history(),
                journal0 == old(self).journal(),
                pulled0.len() <= stream.history().len(),
                stream.history().take(pulled0.len() as int) == pulled0,
                self.journal().len() == journal0.len() + 1 + (stream.history().len()
                    - pulled0.len()),
                self.journal().take(journal0.len() as int) == journal0,
                self.journal()[journal0.len() as int] == (SinkRecord {
                    call: SinkCall::Open,
                    result: Ok(()),
                }),
                forall|i: int|
                    0 <= i < stream.history().len() - pulled0.len() ==> (
                    #[trigger] self.journal()[journal0.len() + 1 + i]).call == call_for(
                        stream.history()[pulled0.len() + i],
                    ),
                forall|i: int|
                    0 <= i < stream.history().len() - pulled0.len() ==> is_element(
                        #[trigger] stream.history()[pulled0.len() + i],
                    ) && self.journal()[journal0.len() + 1 + i].result is Ok,
            decreases stream.remaining(),
        {
            let ghost pulled = stream.history();
            let ghost journal = self.journal();
            match stream.next() {
                Ok(Some(element)) => {
                    let ghost given = element@;
                    match self.on_element(element) {
                        Ok(_) => {
                            proof {
                                assert(stream.history().take(pulled0.len() as int)
                                    =~= pulled.take(pulled0.len() as int));
                                assert(self.journal().take(journal0.len() as int)
                                    =~= journal.take(journal0.len() as int));
                            }
                        },
                        Err(e) => {
                            proof {
                                assert(stream.history().take(pulled0.len() as int)
                                    =~= pulled.take(pulled0.len() as int));
                                assert(self.journal().take(journal0.len() as int)
                                    =~= journal.take(journal0.len() as int));
                            }
                            return Err(e);
                        },
                    }
                },
                Ok(None) => {
                    let r = self.on_close();
                    proof {
                        assert(stream.history().take(pulled0.len() as int) =~= pulled.take(
                            pulled0.len() as int,
                        ));
                        assert(self.journal().take(journal0.len() as int) =~= journal.take(
                            journal0.len() as int,
                        ));
                    }
                    return r;
                },
                Err(error) => {
                    let copy = error.clone();
                    let r = self.on_error(copy);
                    proof {
                        assert(stream.history().take(pulled0.len() as int) =~= pulled.take(
                            pulled0.len() as int,
                        ));
                        assert(self.journal().take(journal0.len() as int) =~= journal.take(
                            journal0.len() as int,
                        ));
                    }
                    match r {
                        Ok(_) => {
                            return Err(error);
                        },
                        Err(e) => {
                            return Err(e);
                        },
                    }
                },
            }
        }
    }
}

/// What it means that a sink was driven by a stream: how the history of the
/// stream and the journal of the sink have grown, and what is returned.
///
/// The sink was opened. Where it refused that, nothing was pulled and its
/// error is returned. Otherwise each pull was handed to the sink at once, and
/// the last pull is the first that was no element or that the sink refused:
/// a refusal is returned, else the failure of the stream, else success.
pub open spec fn drained(
    pulled_before: Seq<Outcome>,
    pulled_after: Seq<Outcome>,
    journal_before: Seq<SinkRecord>,
    journal_after: Seq<SinkRecord>,
    result: Result<(), ErrorView>,
) -> bool {
    let p = pulled_before.len() as int;
    let j = journal_before.len() as int;
    let n = pulled_after.len() - p;
    &&& pulled_after.len() >= p
    &&& pulled_after.take(p) == pulled_before
    &&& journal_after.len() == j + 1 + n
    &&& journal_after.take(j) == journal_before
    &&& journal_after[j].call == SinkCall::Open
    &&& match journal_after[j].result {
        Err(e) => n == 0 && result == Err::<(), ErrorView>(e),
        Ok(_) => {
            &&& n >= 1
            &&& forall|i: int|
                0 <= i < n ==> (#[trigger] journal_after[j + 1 + i]).call == call_for(
                    pulled_after[p + i],
                )
            &&& forall|i: int|
                0 <= i < n - 1 ==> is_element(#[trigger] pulled_after[p + i])
                    && journal_after[j + 1 + i].result is Ok
            &&& match (pulled_after.last(), journal_after.last().result) {
                (_, Err(e)) => result == Err::<(), ErrorView>(e),
                (Ok(Some(_)), Ok(_)) => false,
                (Ok(None), Ok(_)) => result is Ok,
                (Err(e), Ok(_)) => result == Err::<(), ErrorView>(e),
            }
        },
    }
}

/// A drain that succeeds leaves the stream exhausted, and the sink has been
/// told of every element that the stream has yielded meanwhile, once and in
/// order, between being opened and being closed: as many elements as were
/// yielded were observed.
pub proof fn lemma_drain_observes_every_element(
    pulled_before: Seq<Outcome>,
    pulled_after: Seq<Outcome>,
    journal_before: Seq<SinkRecord>,
    journal_after: Seq<SinkRecord>,
)
    requires
        drained(pulled_before, pulled_after, journal_before, journal_after, Ok(())),
    ensures
        exhausted(pulled_after),
        pulled_after.len() > pulled_before.len(),
        journal_after.len() - journal_before.len() == pulled_after.len() - pulled_before.len() + 1,
        journal_after[journal_before.len() as int].call == SinkCall::Open,
        journal_after.last().call == SinkCall::Close,
        forall|i: int|
            0 <= i < pulled_after.len() - pulled_before.len() - 1 ==> is_element(
                #[trigger] pulled_after[pulled_before.len() + i],
            ) && journal_after[journal_before.len() + 1 + i].call == SinkCall::Element(
                pulled_after[pulled_before.len() + i]->Ok_0->Some_0,
            ),
{
    let p = pulled_before.len() as int;
    let j = journal_before.len() as int;
    let n = pulled_after.len() - p;
    assert(journal_after[j + 1 + (n - 1)].call == call_for(pulled_after[p + (n - 1)]));
    assert forall|i: int| 0 <= i < n - 1 implies is_element(#[trigger] pulled_after[p + i])
        && journal_after[j + 1 + i].call == SinkCall::Element(
        pulled_after[p + i]->Ok_0->Some_0,
    ) by {
        assert(journal_after[j + 1 + i].call == call_for(pulled_after[p + i]));
    }
}

/// Stream sink that discards consumed contents.
///
/// The stream is pulled until it reports something other than an element:
/// its end, which gives `Ok`, or its failure, which is returned.
pub fn consume<T: Stream>(stream: &mut T) -> (r: Result<(), Error>)
    requires
        old(stream).inv(),
    ensures
        final(stream).inv(),
        final(stream).history().len() > old(stream).history().len(),
        final(stream).history().take(old(stream).history().len() as int) == old(stream).history(),
        all_elements(
            final(stream).history().subrange(
                old(stream).history().len() as int,
                final(stream).history().len() - 1,
            ),
        ),
        match r {
            Ok(_) => exhausted(final(stream).history()),
            Err(e) => final(stream).history().last() == Err::<Option<ElementView>, ErrorView>(e@),
        },
{
    let ghost pulled0 = stream.history();
    loop
        invariant
            stream.inv(),
            pulled0 == old(stream).history(),
            pulled0.len() <= stream.history().len(),
            stream.history().take(pulled0.len() as int) == pulled0,
            forall|i: int|
                pulled0.len() <= i < stream.history().len() ==> is_element(
                    #[trigger] stream.history()[i],
                ),
        decreases stream.remaining(),
    {
        let ghost pulled = stream.history();
        let r = stream.next();
        proof {
            assert(stream.history().take(pulled0.len() as int) =~= pulled.take(
                pulled0.len() as int,
            ));
        }
        match r {
            Ok(Some(_)) => {},
            Ok(None) => {
                return Ok(());
            },
            Err(e) => {
                return Err(e);
            },
        }
    }
}

/// Creates a copy of an extensible event stream on the fly.
///
/// A duplicator forwards a stream while copying each element (and errors) to
/// the given stream sink. The sink is opened on the first pull, before the
/// stream is pulled. Once the duplicator has reported the end of the stream
/// it reports the end again, without touching either.
pub struct Duplicator<T: Stream, S: StreamSink> {
    stream: T,
    sink: S,
    open: bool,
    done: bool,
    reported: Ghost<Seq<Outcome>>,
}

/// What it means that a pull was forwarded to a sink: how the journal of the
/// sink has grown, and what goes on to the caller.
///
/// The sink is told of the pull, once: where it refuses, its error goes on,
/// else the pull itself.
pub open spec fn forwarded(
    journal_before: Seq<SinkRecord>,
    journal_after: Seq<SinkRecord>,
    pulled: Outcome,
    result: Outcome,
) -> bool {
    &&& journal_after.len() == journal_before.len() + 1
    &&& journal_after.drop_last() == journal_before
    &&& journal_after.last().call == call_for(pulled)
    &&& result == match journal_after.last().result {
        Err(e) => Err::<Option<ElementView>, ErrorView>(e),
        Ok(_) => pulled,
    }
}

/// True if the journal has grown by the one call that opens a sink, and the
/// sink has refused it.
pub open spec fn refused_to_open(
    open_before: bool,
    journal_before: Seq<SinkRecord>,
    journal_after: Seq<SinkRecord>,
) -> bool {
    &&& !open_before
    &&& journal_after.len() == journal_before.len() + 1
    &&& journal_after.drop_last() == journal_before
    &&& journal_after.last().call == SinkCall::Open
    &&& journal_after.last().result is Err
}

/// The journal of a sink once it is open: as it was, if the sink was open
/// before; else with the call that opened it.
pub open spec fn journal_when_open(open_before: bool, journal_before: Seq<SinkRecord>) -> Seq<
    SinkRecord,
> {
    if open_before {
        journal_before
    } else {
        journal_before.push(SinkRecord { call: SinkCall::Open, result: Ok(()) })
    }
}

impl<T: Stream, S: StreamSink> Duplicator<T, S> {
    /// The stream that is forwarded.
    pub closed spec fn source(&self) -> T {
        self.stream
    }

    /// The sink that is told of everything.
    pub closed spec fn sink(&self) -> S {
        self.sink
    }

    /// True once the sink has been opened.
    pub closed spec fn opened(&self) -> bool {
        self.open
    }

    /// True once the end of the stream has been reported.
    pub closed spec fn finished(&self) -> bool {
        self.done
    }

    /// Create a new duplicator.
    pub fn new(stream: T, sink: S) -> (r: Self)
        requires
            stream.inv(),
            sink.inv(),
        ensures
            r.inv(),
            r.source() == stream,
            r.sink() == sink,
            !r.opened(),
            !r.finished(),
            r.history() == Seq::<Outcome>::empty(),
    {
        Duplicator { stream, sink, open: false, done: false, reported: Ghost(Seq::empty()) }
    }

    /// Drop duplicator and release sink.
    pub fn into_sink(self) -> (r: S)
        ensures
            r == self.sink(),
    {
        self.sink
    }

    /// Opens the sink, unless it has been opened before, whatever it
    /// answered then. Nothing is pulled.
    pub fn open_sink(&mut self) -> (r: Result<(), Error>)
        requires
            old(self).sink().inv(),
        ensures
            final(self).sink().inv(),
            final(self).opened(),
            final(self).source() == old(self).source(),
            final(self).finished() == old(self).finished(),
            final(self).history() == old(self).history(),
            old(self).opened() ==> r is Ok && final(self).sink() == old(self).sink(),
            !old(self).opened() ==> final(self).sink().journal() == old(self).sink().journal().push(
                SinkRecord { call: SinkCall::Open, result: verdict(r) },
            ),
    {
        if self.open {
            Ok(())
        } else {
            self.open = true;
            self.sink.on_open()
        }
    }

    /// Hands what was pulled from the stream to the sink, which has been
    /// opened, and on to the caller.
    pub fn forward(&mut self, pulled: ResOpt) -> (r: ResOpt)
        requires
            old(self).sink().inv(),
            old(self).opened(),
        ensures
            final(self).sink().inv(),
            final(self).opened(),
            final(self).source() == old(self).source(),
            final(self).finished() == old(self).finished(),
            final(self).history() == old(self).history(),
            forwarded(
                old(self).sink().journal(),
                final(self).sink().journal(),
                outcome(pulled),
                outcome(r),
            ),
    {
        let ghost told = self.sink.journal();
        match pulled {
            Ok(Some(element)) => {
                let copy = element.clone();
                let told_sink = self.sink.on_element(copy);
                proof {
                    assert(self.sink.journal().drop_last() =~= told);
                }
                match told_sink {
                    Ok(_) => Ok(Some(element)),
                    Err(e) => Err(e),
                }
            },
            Ok(None) => {
                let told_sink = self.sink.on_close();
                proof {
                    assert(self.sink.journal().drop_last() =~= told);
                }
                match told_sink {
                    Ok(_) => Ok(None),
                    Err(e) => Err(e),
                }
            },
            Err(error) => {
                let copy = error.clone();
                let told_sink = self.sink.on_error(copy);
                proof {
                    assert(self.sink.journal().drop_last() =~= told);
                }
                match told_sink {
                    Ok(_) => Err(error),
                    Err(e) => Err(e),
                }
            },
        }
    }
}

impl<T: Stream, S: StreamSink> Stream for Duplicator<T, S> {
    closed spec fn inv(&self) -> bool {
        &&& self.stream.inv()
        &&& self.sink.inv()
        &&& exhausted(self.reported@) ==> self.done
    }

    closed spec fn history(&self) -> Seq<Outcome> {
        self.reported@
    }

    closed spec fn remaining(&self) -> nat {
        self.stream.remaining()
    }

    /// Opens the sink if this is the first pull, then pulls the stream and
    /// forwards what it reported.
    ///
    /// Once the end was reported it is reported again, and neither the stream
    /// nor the sink is touched. Where the sink refuses to be opened, its error
    /// is returned and the stream is not pulled; the sink is not opened again
    /// on a later pull.
    fn next(&mut self) -> (r: ResOpt)
        ensures
            final(self).finished() == (old(self).finished() || outcome(r) == Ok::<
                Option<ElementView>,
                ErrorView,
            >(None)),
            old(self).finished() ==> outcome(r) == Ok::<Option<ElementView>, ErrorView>(None)
                && final(self).source() == old(self).source() && final(self).sink() == old(
                self,
            ).sink() && final(self).opened() == old(self).opened(),
            !old(self).finished() ==> final(self).opened(),
            !old(self).finished() && refused_to_open(
                old(self).opened(),
                old(self).sink().journal(),
                final(self).sink().journal(),
            ) ==> final(self).source() == old(self).source() && outcome(r) == Err::<
                Option<ElementView>,
                ErrorView,
            >(final(self).sink().journal().last().result->Err_0),
            !old(self).finished() && !refused_to_open(
                old(self).opened(),
                old(self).sink().journal(),
                final(self).sink().journal(),
            ) ==> final(self).source().history().len() == old(self).source().history().len() + 1
                && final(self).source().history().drop_last() == old(self).source().history()
                && forwarded(
                journal_when_open(old(self).opened(), old(self).sink().journal()),
                final(self).sink().journal(),
                final(self).source().history().last(),
                outcome(r),
            ),
    {
        if self.done {
            self.reported = Ghost(self.reported@.push(Ok(None)));
            return Ok(None);
        }
        let ghost journal_before = self.sink.journal();
        match self.open_sink() {
            Ok(_) => {},
            Err(e) => {
                proof {
                    assert(self.sink.journal().drop_last() =~= journal_before);
                }
                self.reported = Ghost(self.reported@.push(Err(e@)));
                return Err(e);
            },
        }
        let ghost pulled_before = self.stream.history();
        let pulled = self.stream.next();
        proof {
            assert(self.stream.history().drop_last() =~= pulled_before);
        }
        let r = self.forward(pulled);
        match &r {
            Ok(None) => {
                self.done = true;
            },
            _ => {},
        }
        self.reported = Ghost(self.reported@.push(outcome(r)));
        r
    }
}

} // verus!
