//! The typed element model: attributes, extensions, globals, classifiers,
//! events, traces and whole logs, each with the mathematical value it denotes.

use vstd::prelude::*;

verus! {

/// Whether a global or a classifier speaks of events or of traces.
#[derive(Debug, Clone, Copy, PartialEq, Eq, Structural)]
pub enum Scope {
    Event,
    Trace,
}

/// An instant with a fixed offset from UTC.
#[derive(Debug, Clone, Copy, PartialEq, Eq, Structural)]
pub struct DateTime {
    /// Seconds since 1970-01-01T00:00:00Z, leap seconds not counted.
    pub secs: i64,
    /// Nanoseconds into that second; a leap second counts on from 1,000,000,000.
    pub nanos: u32,
    /// Seconds by which local time is ahead of UTC.
    pub offset: i32,
}

/// The value of an attribute.
#[derive(Debug)]
pub enum AttributeType {
    String(String),
    Date(DateTime),
    Int(i64),
    /// A floating-point number, held as the decimal text that denotes it.
    Float(String),
    Boolean(bool),
    Id(String),
    List(Vec<Attribute>),
}

/// A keyed, typed value.
#[derive(Debug)]
pub struct Attribute {
    pub key: String,
    pub value: AttributeType,
}

/// Declaration of an extension that attribute keys may refer to.
#[derive(Debug)]
pub struct Extension {
    pub name: String,
    pub prefix: String,
    pub uri: String,
}

/// Attributes that every event, or every trace, of the log carries.
#[derive(Debug)]
pub struct Global {
    pub scope: Scope,
    pub attributes: Vec<Attribute>,
}

/// A named list of attribute keys by which events or traces are told apart.
#[derive(Debug)]
pub struct Classifier {
    pub name: String,
    pub scope: Scope,
    pub keys: String,
}

/// One recorded step of a process.
#[derive(Debug)]
pub struct Event {
    pub attributes: Vec<Attribute>,
}

/// One case of a process: its attributes and its events in order.
#[derive(Debug)]
pub struct Trace {
    pub attributes: Vec<Attribute>,
    pub events: Vec<Event>,
}

/// A whole log, held in memory.
#[derive(Debug)]
pub struct Log {
    pub extensions: Vec<Extension>,
    pub globals: Vec<Global>,
    pub classifiers: Vec<Classifier>,
    pub attributes: Vec<Attribute>,
    pub traces: Vec<Trace>,
    pub events: Vec<Event>,
}

/// What an [`AttributeType`] denotes.
pub enum ValueView {
    String(Seq<char>),
    Date(DateTime),
    Int(i64),
    Float(Seq<char>),
    Boolean(bool),
    Id(Seq<char>),
    List(Seq<AttributeView>),
}

/// What an [`Attribute`] denotes.
pub struct AttributeView {
    pub key: Seq<char>,
    pub value: ValueView,
}

/// What an [`Extension`] denotes.
pub struct ExtensionView {
    pub name: Seq<char>,
    pub prefix: Seq<char>,
    pub uri: Seq<char>,
}

/// What a [`Global`] denotes.
pub struct GlobalView {
    pub scope: Scope,
    pub attributes: Seq<AttributeView>,
}

/// What a [`Classifier`] denotes.
pub struct ClassifierView {
    pub name: Seq<char>,
    pub scope: Scope,
    pub keys: Seq<char>,
}

/// What an [`Event`] denotes.
pub struct EventView {
    pub attributes: Seq<AttributeView>,
}

/// What a [`Trace`] denotes.
pub struct TraceView {
    pub attributes: Seq<AttributeView>,
    pub events: Seq<EventView>,
}

/// What a [`Log`] denotes.
pub struct LogView {
    pub extensions: Seq<ExtensionView>,
    pub globals: Seq<GlobalView>,
    pub classifiers: Seq<ClassifierView>,
    pub attributes: Seq<AttributeView>,
    pub traces: Seq<TraceView>,
    pub events: Seq<EventView>,
}

/// The views of a sequence of values, in order.
pub open spec fn views<T: View>(s: Seq<T>) -> Seq<T::V> {
    Seq::new(s.len(), |i: int| s[i]@)
}

/// Appending a value appends its view.
pub proof fn lemma_views_push<T: View>(s: Seq<T>, x: T)
    ensures
        views(s.push(x)) == views(s).push(x@),
{
    assert(views(s.push(x)) =~= views(s).push(x@));
}

impl View for AttributeType {
    type V = ValueView;

    open spec fn view(&self) -> ValueView
        decreases self,
    {
        match self {
            AttributeType::String(s) => ValueView::String(s@),
            AttributeType::Date(d) => ValueView::Date(*d),
            AttributeType::Int(i) => ValueView::Int(*i),
            AttributeType::Float(s) => ValueView::Float(s@),
            AttributeType::Boolean(b) => ValueView::Boolean(*b),
            AttributeType::Id(s) => ValueView::Id(s@),
            AttributeType::List(l) => ValueView::List(
                Seq::new(
                    l@.len(),
                    |i: int|
                        if 0 <= i < l@.len() {
                            l@[i].view()
                        } else {
                            arbitrary()
                        },
                ),
            ),
        }
    }
}

impl View for Attribute {
    type V = AttributeView;

    open spec fn view(&self) -> AttributeView
        decreases self,
    {
        AttributeView { key: self.key@, value: self.value.view() }
    }
}

/// A list value denotes the views of its members.
pub proof fn lemma_list_view(l: Vec<Attribute>)
    ensures
        AttributeType::List(l)@ == ValueView::List(views(l@)),
{
    let v = AttributeType::List(l);
    reveal_with_fuel(<AttributeType as View>::view, 2);
    assert(v.view() is List);
    assert(v.view()->List_0.len() == l@.len());
    assert forall|i: int| 0 <= i < l@.len() implies v.view()->List_0[i] == views(l@)[i] by {}
    assert(v.view()->List_0 =~= views(l@));
}

impl View for Extension {
    type V = ExtensionView;

    open spec fn view(&self) -> ExtensionView {
        ExtensionView { name: self.name@, prefix: self.prefix@, uri: self.uri@ }
    }
}

impl View for Global {
    type V = GlobalView;

    open spec fn view(&self) -> GlobalView {
        GlobalView { scope: self.scope, attributes: views(self.attributes@) }
    }
}

impl View for Classifier {
    type V = ClassifierView;

    open spec fn view(&self) -> ClassifierView {
        ClassifierView { name: self.name@, scope: self.scope, keys: self.keys@ }
    }
}

impl View for Event {
    type V = EventView;

    open spec fn view(&self) -> EventView {
        EventView { attributes: views(self.attributes@) }
    }
}

impl View for Trace {
    type V = TraceView;

    open spec fn view(&self) -> TraceView {
        TraceView { attributes: views(self.attributes@), events: views(self.events@) }
    }
}

impl View for Log {
    type V = LogView;

    open spec fn view(&self) -> LogView {
        LogView {
            extensions: views(self.extensions@),
            globals: views(self.globals@),
            classifiers: views(self.classifiers@),
            attributes: views(self.attributes@),
            traces: views(self.traces@),
            events: views(self.events@),
        }
    }
}

impl Clone for AttributeType {
    fn clone(&self) -> (r: Self)
        ensures
            r@ == self@,
        decreases self,
    {
        match self {
            AttributeType::String(s) => AttributeType::String(s.clone()),
            AttributeType::Date(d) => AttributeType::Date(*d),
            AttributeType::Int(i) => AttributeType::Int(*i),
            AttributeType::Float(s) => AttributeType::Float(s.clone()),
            AttributeType::Boolean(b) => AttributeType::Boolean(*b),
            AttributeType::Id(s) => AttributeType::Id(s.clone()),
            AttributeType::List(l) => {
                let mut out: Vec<Attribute> = Vec::new();
                let mut i: usize = 0;
                while i < l.len()
                    invariant
                        0 <= i <= l.len(),
                        out@.len() == i,
                        forall|j: int| 0 <= j < i ==> out@[j]@ == l@[j]@,
                        *self == AttributeType::List(*l),
                    decreases l.len() - i,
                {
                    proof {
                        assert(decreases_to!(*l => l[i as int]));
                        assert(decreases_to!(*self => self->List_0));
                    }
                    out.push(l[i].clone());
                    i = i + 1;
                }
                let r = AttributeType::List(out);
                proof {
                    assert(r@->List_0 =~= self@->List_0);
                }
                r
            },
        }
    }
}

impl Clone for Attribute {
    fn clone(&self) -> (r: Self)
        ensures
            r@ == self@,
        decreases self,
    {
        Attribute { key: self.key.clone(), value: self.value.clone() }
    }
}

/// A copy of a list of attributes.
pub fn clone_attributes(v: &Vec<Attribute>) -> (r: Vec<Attribute>)
    ensures
        views(r@) == views(v@),
{
    let mut out: Vec<Attribute> = Vec::new();
    let mut i: usize = 0;
    while i < v.len()
        invariant
            0 <= i <= v.len(),
            out@.len() == i,
            forall|j: int| 0 <= j < i ==> out@[j]@ == v@[j]@,
        decreases v.len() - i,
    {
        out.push(v[i].clone());
        i = i + 1;
    }
    proof {
        assert(views(out@) =~= views(v@));
    }
    out
}

impl Clone for Extension {
    fn clone(&self) -> (r: Self)
        ensures
            r@ == self@,
    {
        Extension { name: self.name.clone(), prefix: self.prefix.clone(), uri: self.uri.clone() }
    }
}

impl Clone for Global {
    fn clone(&self) -> (r: Self)
        ensures
            r@ == self@,
    {
        Global { scope: self.scope, attributes: clone_attributes(&self.attributes) }
    }
}

impl Clone for Classifier {
    fn clone(&self) -> (r: Self)
        ensures
            r@ == self@,
    {
        Classifier { name: self.name.clone(), scope: self.scope, keys: self.keys.clone() }
    }
}

impl Clone for Event {
    fn clone(&self) -> (r: Self)
        ensures
            r@ == self@,
    {
        Event { attributes: clone_attributes(&self.attributes) }
    }
}

impl Clone for Trace {
    fn clone(&self) -> (r: Self)
        ensures
            r@ == self@,
    {
        let mut events: Vec<Event> = Vec::new();
        let mut i: usize = 0;
        while i < self.events.len()
            invariant
                0 <= i <= self.events.len(),
                events@.len() == i,
                forall|j: int| 0 <= j < i ==> events@[j]@ == self.events@[j]@,
            decreases self.events.len() - i,
        {
            events.push(self.events[i].clone());
            i = i + 1;
        }
        proof {
            assert(views(events@) =~= views(self.events@));
        }
        Trace { attributes: clone_attributes(&self.attributes), events }
    }
}

} // verus!

