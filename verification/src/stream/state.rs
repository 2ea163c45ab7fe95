//! The order in which the kinds of element may follow one another.

use vstd::prelude::*;

use crate::error::{Error, ErrorView};
use crate::model::{
    clone_attributes, lemma_views_push, views, Attribute, AttributeView, Classifier,
    ClassifierView, Extension, ExtensionView, Global, GlobalView,
};
use crate::stream::{Element, ElementView};

verus! {

/// Where a stream stands in the prescribed order of elements.
#[derive(Debug, Clone, Copy, PartialEq, Eq, Structural, PartialOrd)]
pub enum StreamState {
    Extension,
    Global,
    Classifier,
    Attribute,
    Trace,
    Event,
}

impl StreamState {
    /// The place of the state in the order, counted from zero.
    pub open spec fn rank(self) -> nat {
        match self {
            StreamState::Extension => 0,
            StreamState::Global => 1,
            StreamState::Classifier => 2,
            StreamState::Attribute => 3,
            StreamState::Trace => 4,
            StreamState::Event => 5,
        }
    }

    /// The place of the state in the order, counted from zero.
    pub fn position(&self) -> (r: u8)
        ensures
            r == self.rank(),
    {
        match self {
            StreamState::Extension => 0,
            StreamState::Global => 1,
            StreamState::Classifier => 2,
            StreamState::Attribute => 3,
            StreamState::Trace => 4,
            StreamState::Event => 5,
        }
    }

    /// True for the states in which payload has been seen.
    pub open spec fn is_payload(self) -> bool {
        self.rank() >= StreamState::Trace.rank()
    }

    /// The state's name.
    pub open spec fn name(self) -> Seq<char> {
        match self {
            StreamState::Extension => "Extension"@,
            StreamState::Global => "Global"@,
            StreamState::Classifier => "Classifier"@,
            StreamState::Attribute => "Attribute"@,
            StreamState::Trace => "Trace"@,
            StreamState::Event => "Event"@,
        }
    }

    /// The state's name.
    pub fn label(&self) -> (r: &'static str)
        ensures
            r@ == self.name(),
    {
        match self {
            StreamState::Extension => "Extension",
            StreamState::Global => "Global",
            StreamState::Classifier => "Classifier",
            StreamState::Attribute => "Attribute",
            StreamState::Trace => "Trace",
            StreamState::Event => "Event",
        }
    }
}

/// Store of the meta elements of an extensible event stream, and the state
/// that enforces their order.
#[derive(Debug)]
pub struct Meta {
    state: StreamState,
    extensions: Vec<Extension>,
    globals: Vec<Global>,
    classifiers: Vec<Classifier>,
    attributes: Vec<Attribute>,
}

/// What a [`Meta`] denotes.
pub struct MetaView {
    pub state: StreamState,
    pub extensions: Seq<ExtensionView>,
    pub globals: Seq<GlobalView>,
    pub classifiers: Seq<ClassifierView>,
    pub attributes: Seq<AttributeView>,
}

/// A move from one state to the next: the state before, the state after.
pub type Transition = (StreamState, StreamState);

/// True if the move leaves the meta data and enters the payload.
pub open spec fn crosses(t: Transition) -> bool {
    !t.0.is_payload() && t.1.is_payload()
}

impl MetaView {
    /// Nothing seen yet.
    pub open spec fn initial() -> MetaView {
        MetaView {
            state: StreamState::Extension,
            extensions: Seq::empty(),
            globals: Seq::empty(),
            classifiers: Seq::empty(),
            attributes: Seq::empty(),
        }
    }

    /// The store with a copy of the element added, if it is meta data.
    pub open spec fn store(self, element: ElementView) -> MetaView {
        match element {
            ElementView::Extension(e) => MetaView { extensions: self.extensions.push(e), ..self },
            ElementView::Global(g) => MetaView { globals: self.globals.push(g), ..self },
            ElementView::Classifier(c) => MetaView {
                classifiers: self.classifiers.push(c),
                ..self
            },
            ElementView::Attribute(a) => MetaView { attributes: self.attributes.push(a), ..self },
            ElementView::Trace(_) => self,
            ElementView::Event(_) => self,
        }
    }

    /// True if the element may follow what was seen.
    pub open spec fn admits(self, element: ElementView) -> bool {
        self.state.rank() <= element.state().rank()
    }

    /// The store after the element was seen.
    pub open spec fn after(self, element: ElementView) -> MetaView {
        if self.admits(element) {
            MetaView { state: element.state(), ..self.store(element) }
        } else {
            self.store(element)
        }
    }

    /// What seeing the element reports: the transition, or the violation of
    /// the order with the state that was asked for and the state that holds.
    pub open spec fn report(self, element: ElementView) -> Result<Transition, ErrorView> {
        if self.admits(element) {
            Ok((self.state, element.state()))
        } else {
            Err(ErrorView::StateError { got: element.state(), current: self.state })
        }
    }
}

impl View for Meta {
    type V = MetaView;

    closed spec fn view(&self) -> MetaView {
        MetaView {
            state: self.state,
            extensions: views(self.extensions@),
            globals: views(self.globals@),
            classifiers: views(self.classifiers@),
            attributes: views(self.attributes@),
        }
    }
}

impl Default for Meta {
    fn default() -> (r: Self)
        ensures
            r@ == MetaView::initial(),
    {
        let r = Meta {
            state: StreamState::Extension,
            extensions: Vec::new(),
            globals: Vec::new(),
            classifiers: Vec::new(),
            attributes: Vec::new(),
        };
        proof {
            assert(r@.extensions =~= Seq::empty());
            assert(r@.globals =~= Seq::empty());
            assert(r@.classifiers =~= Seq::empty());
            assert(r@.attributes =~= Seq::empty());
        }
        r
    }
}

impl Clone for Meta {
    fn clone(&self) -> (r: Self)
        ensures
            r@ == self@,
    {
        let mut extensions: Vec<Extension> = Vec::new();
        let mut i: usize = 0;
        while i < self.extensions.len()
            invariant
                0 <= i <= self.extensions.len(),
                extensions@.len() == i,
                forall|j: int| 0 <= j < i ==> extensions@[j]@ == self.extensions@[j]@,
            decreases self.extensions.len() - i,
        {
            extensions.push(self.extensions[i].clone());
            i = i + 1;
        }
        let mut globals: Vec<Global> = Vec::new();
        let mut i: usize = 0;
        while i < self.globals.len()
            invariant
                0 <= i <= self.globals.len(),
                globals@.len() == i,
                forall|j: int| 0 <= j < i ==> globals@[j]@ == self.globals@[j]@,
            decreases self.globals.len() - i,
        {
            globals.push(self.globals[i].clone());
            i = i + 1;
        }
        let mut classifiers: Vec<Classifier> = Vec::new();
        let mut i: usize = 0;
        while i < self.classifiers.len()
            invariant
                0 <= i <= self.classifiers.len(),
                classifiers@.len() == i,
                forall|j: int| 0 <= j < i ==> classifiers@[j]@ == self.classifiers@[j]@,
            decreases self.classifiers.len() - i,
        {
            classifiers.push(self.classifiers[i].clone());
            i = i + 1;
        }
        proof {
            assert(views(extensions@) =~= views(self.extensions@));
            assert(views(globals@) =~= views(self.globals@));
            assert(views(classifiers@) =~= views(self.classifiers@));
        }
        Meta {
            state: self.state,
            extensions,
            globals,
            classifiers,
            attributes: clone_attributes(&self.attributes),
        }
    }
}

impl Meta {
    /// Update the store by the given element.
    ///
    /// A copy of a meta element is kept. If the element belongs before what
    /// was already seen, the state stays and the violation is reported with
    /// both states; otherwise the state moves on and the transition is
    /// returned.
    pub fn update(&mut self, element: &Element) -> (r: Result<Transition, Error>)
        ensures
            final(self)@ == old(self)@.after(element@),
            match r {
                Ok(t) => old(self)@.report(element@) == Ok::<Transition, ErrorView>(t),
                Err(e) => old(self)@.report(element@) == Err::<Transition, ErrorView>(e@),
            },
    {
        let old_state = self.state;
        let new_state = match element {
            Element::Extension(e) => {
                let copy = e.clone();
                proof {
                    lemma_views_push(self.extensions@, copy);
                }
                self.extensions.push(copy);
                StreamState::Extension
            },
            Element::Global(g) => {
                let copy = g.clone();
                proof {
                    lemma_views_push(self.globals@, copy);
                }
                self.globals.push(copy);
                StreamState::Global
            },
            Element::Classifier(c) => {
                let copy = c.clone();
                proof {
                    lemma_views_push(self.classifiers@, copy);
                }
                self.classifiers.push(copy);
                StreamState::Classifier
            },
            Element::Attribute(a) => {
                let copy = a.clone();
                proof {
                    lemma_views_push(self.attributes@, copy);
                }
                self.attributes.push(copy);
                StreamState::Attribute
            },
            Element::Trace(_) => StreamState::Trace,
            Element::Event(_) => StreamState::Event,
        };
        if new_state.position() < old_state.position() {
            return Err(Error::StateError { got: new_state, current: old_state });
        }
        self.state = new_state;
        Ok((old_state, new_state))
    }

    /// The state that the stream is in.
    pub fn state(&self) -> (r: StreamState)
        ensures
            r == self@.state,
    {
        self.state
    }

    /// The extensions seen so far.
    pub fn extensions(&self) -> (r: &Vec<Extension>)
        ensures
            views(r@) == self@.extensions,
    {
        &self.extensions
    }

    /// The globals seen so far.
    pub fn globals(&self) -> (r: &Vec<Global>)
        ensures
            views(r@) == self@.globals,
    {
        &self.globals
    }

    /// The classifiers seen so far.
    pub fn classifiers(&self) -> (r: &Vec<Classifier>)
        ensures
            views(r@) == self@.classifiers,
    {
        &self.classifiers
    }

    /// The attributes of the log seen so far.
    pub fn attributes(&self) -> (r: &Vec<Attribute>)
        ensures
            views(r@) == self@.attributes,
    {
        &self.attributes
    }
}

/// The state that holds when the element at `i` arrives, if the store was in
/// `start` before the first and every element before `i` was admitted.
pub open spec fn state_before(start: StreamState, elements: Seq<ElementView>, i: int) -> StreamState {
    if i <= 0 {
        start
    } else {
        elements[i - 1].state()
    }
}

/// True if none of the first `n` elements asks for a state before the one
/// that holds when it arrives.
pub open spec fn in_order_until(start: StreamState, elements: Seq<ElementView>, n: int) -> bool {
    forall|i: int|
        0 <= i < n ==> (#[trigger] state_before(start, elements, i)).rank()
            <= elements[i].state().rank()
}

/// True if no element asks for a state before the one that holds when it arrives.
pub open spec fn in_order(start: StreamState, elements: Seq<ElementView>) -> bool {
    in_order_until(start, elements, elements.len() as int)
}

/// The store after the elements were fed to it one by one; or, where one was
/// refused, its place and the error that it raised.
pub open spec fn feed(meta: MetaView, elements: Seq<ElementView>) -> Result<
    MetaView,
    (int, ErrorView),
>
    decreases elements.len(),
{
    if elements.len() == 0 {
        Ok(meta)
    } else {
        match meta.report(elements[0]) {
            Ok(_) => match feed(meta.after(elements[0]), elements.skip(1)) {
                Ok(end) => Ok(end),
                Err((k, e)) => Err((k + 1, e)),
            },
            Err(e) => Err((0, e)),
        }
    }
}

/// One step never moves the state backward: an admitted element moves it to
/// its own state, which is no earlier; a refused one leaves it where it was
/// and is reported with both states.
pub proof fn lemma_update_order(meta: MetaView, element: ElementView)
    ensures
        meta.state.rank() <= meta.after(element).state.rank(),
        match meta.report(element) {
            Ok(t) => t == (meta.state, element.state()) && t.0.rank() <= t.1.rank()
                && meta.after(element).state == t.1,
            Err(e) => element.state().rank() < meta.state.rank() && meta.after(element).state
                == meta.state && e == (ErrorView::StateError {
                got: element.state(),
                current: meta.state,
            }),
        },
{
}

/// Fed any sequence of elements, the store accepts it if and only if the
/// states of the elements never decrease; the first decrease is refused, and
/// the error carries the state that was asked for and the state that held.
pub proof fn lemma_feed_order(meta: MetaView, elements: Seq<ElementView>)
    ensures
        match feed(meta, elements) {
            Ok(end) => in_order(meta.state, elements) && end.state == state_before(
                meta.state,
                elements,
                elements.len() as int,
            ),
            Err((k, e)) => 0 <= k < elements.len() && in_order_until(meta.state, elements, k)
                && elements[k].state().rank() < state_before(meta.state, elements, k).rank() && e
                == (ErrorView::StateError {
                got: elements[k].state(),
                current: state_before(meta.state, elements, k),
            }),
        },
    decreases elements.len(),
{
    if elements.len() > 0 {
        let first = elements[0];
        let rest = elements.skip(1);
        if meta.admits(first) {
            let next = meta.after(first);
            assert(next.state == first.state());
            lemma_feed_order(next, rest);
            let n = match feed(next, rest) {
                Ok(_) => rest.len() as int,
                Err((k, _)) => k,
            };
            assert(in_order_until(next.state, rest, n));
            assert forall|i: int| 0 <= i < n + 1 implies (#[trigger] state_before(
                meta.state,
                elements,
                i,
            )).rank() <= elements[i].state().rank() by {
                if i > 0 {
                    assert(rest[i - 1] == elements[i]);
                    assert(state_before(next.state, rest, i - 1) == state_before(
                        meta.state,
                        elements,
                        i,
                    ));
                }
            }
            if n < rest.len() {
                assert(rest[n] == elements[n + 1]);
                assert(state_before(next.state, rest, n) == state_before(
                    meta.state,
                    elements,
                    n + 1,
                ));
            } else {
                if n > 0 {
                    assert(rest[n - 1] == elements[n]);
                }
            }
        }
    }
}

/// In a sequence whose states never decrease, a later element is in no
/// earlier state than one before it.
pub proof fn lemma_in_order_chain(start: StreamState, elements: Seq<ElementView>, j: int, k: int)
    requires
        in_order(start, elements),
        0 <= j <= k < elements.len(),
    ensures
        start.rank() <= elements[j].state().rank() <= elements[k].state().rank(),
    decreases k,
{
    if k > 0 {
        if j < k {
            lemma_in_order_chain(start, elements, j, k - 1);
        } else {
            lemma_in_order_chain(start, elements, j - 1, k - 1);
        }
        assert(state_before(start, elements, k).rank() <= elements[k].state().rank());
    } else {
        assert(state_before(start, elements, 0).rank() <= elements[0].state().rank());
    }
}

/// In a traversal that starts with nothing seen and keeps the order, the move
/// from meta data into payload happens at the first trace or event and nowhere
/// else: once if there is payload, never if there is none.
pub proof fn lemma_single_crossing(elements: Seq<ElementView>, i: int)
    requires
        in_order(StreamState::Extension, elements),
        0 <= i < elements.len(),
    ensures
        crosses((state_before(StreamState::Extension, elements, i), elements[i].state())) <==> (
        elements[i].state().is_payload() && forall|j: int|
            0 <= j < i ==> !(#[trigger] elements[j]).state().is_payload()),
{
    let start = StreamState::Extension;
    if crosses((state_before(start, elements, i), elements[i].state())) {
        assert forall|j: int| 0 <= j < i implies !(#[trigger] elements[j]).state().is_payload() by {
            lemma_in_order_chain(start, elements, j, i - 1);
        }
    }
    if elements[i].state().is_payload() && forall|j: int|
        0 <= j < i ==> !(#[trigger] elements[j]).state().is_payload() {
        if i > 0 {
            assert(!elements[i - 1].state().is_payload());
        }
    }
}

} // verus!
