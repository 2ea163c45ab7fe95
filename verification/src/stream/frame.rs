//! The elements of a document while it is read: what the tokenizer found,
//! and the typed elements that it stands for.

use vstd::prelude::*;
use vstd::string::*;
use vstd::utf8::{decode_utf8, valid_utf8};

use crate::date::rfc3339_value;
use crate::error::{Error, ErrorView};
use crate::model::{
    lemma_list_view, lemma_views_push, views, Attribute, AttributeType, AttributeView, Classifier,
    ClassifierView, DateTime, Event, EventView, Extension, ExtensionView, Global, GlobalView, Log,
    LogView, Scope, Trace, TraceView, ValueView,
};
use crate::stream::xml::{
    attributes_of, raw_view, raw_views, tag_attributes, unescape_value, unescaped, RawAttribute,
    RawAttributeView, XmlTag, XmlTagView,
};
use crate::stream::xml_util::bool_value;
use crate::text::{debug_quoted, float_check, int_value, quoted, same_text, utf8_failure, utf8_text};

verus! {

/// The attributes that the `values` element of a list holds.
#[derive(Debug)]
pub struct XesValue {
    pub attributes: Vec<Attribute>,
}

/// An element of the document, read and typed.
#[derive(Debug)]
pub enum XesElement {
    Attribute(Attribute),
    Value(XesValue),
    Extension(Extension),
    Global(Global),
    Classifier(Classifier),
    Event(Event),
    Trace(Trace),
    Log(Log),
}

/// What an [`XesElement`] denotes.
pub enum XesElementView {
    Attribute(AttributeView),
    Value(Seq<AttributeView>),
    Extension(ExtensionView),
    Global(GlobalView),
    Classifier(ClassifierView),
    Event(EventView),
    Trace(TraceView),
    Log(LogView),
}

impl View for XesElement {
    type V = XesElementView;

    open spec fn view(&self) -> XesElementView {
        match self {
            XesElement::Attribute(a) => XesElementView::Attribute(a@),
            XesElement::Value(v) => XesElementView::Value(views(v.attributes@)),
            XesElement::Extension(e) => XesElementView::Extension(e@),
            XesElement::Global(g) => XesElementView::Global(g@),
            XesElement::Classifier(c) => XesElementView::Classifier(c@),
            XesElement::Event(e) => XesElementView::Event(e@),
            XesElement::Trace(t) => XesElementView::Trace(t@),
            XesElement::Log(l) => XesElementView::Log(l@),
        }
    }
}

/// An element of the document while it is being read: the name of its tag,
/// the attributes of its tag, and the children that are complete.
#[derive(Debug)]
pub struct XesIntermediate {
    pub element_name: String,
    pub attributes: Vec<(String, String)>,
    pub elements: Vec<XesElement>,
}

/// What an [`XesIntermediate`] denotes.
pub struct FrameView {
    pub element_name: Seq<char>,
    pub attributes: Seq<(Seq<char>, Seq<char>)>,
    pub elements: Seq<XesElementView>,
}

/// What a list of pairs of texts denotes.
pub open spec fn pairs(s: Seq<(String, String)>) -> Seq<(Seq<char>, Seq<char>)> {
    Seq::new(s.len(), |i: int| (s[i].0@, s[i].1@))
}

impl View for XesIntermediate {
    type V = FrameView;

    open spec fn view(&self) -> FrameView {
        FrameView {
            element_name: self.element_name@,
            attributes: pairs(self.attributes@),
            elements: views(self.elements@),
        }
    }
}

/// The value that the attributes of a tag give to a key: that of the last
/// attribute with the key.
pub open spec fn lookup(attributes: Seq<(Seq<char>, Seq<char>)>, key: Seq<char>) -> Option<
    Seq<char>,
>
    decreases attributes.len(),
{
    if attributes.len() == 0 {
        None
    } else if attributes.last().0 == key {
        Some(attributes.last().1)
    } else {
        lookup(attributes.drop_last(), key)
    }
}

/// The error for an attribute that a tag must have and has not.
pub open spec fn missing(key: Seq<char>, element_name: Seq<char>) -> ErrorView {
    ErrorView::KeyError(
        "missing "@ + debug_quoted(key) + " attribute in "@ + debug_quoted(element_name),
    )
}

/// The text that bytes encode, or the error for bytes that are no UTF-8.
pub open spec fn decoded(bytes: Seq<u8>) -> Result<Seq<char>, ErrorView> {
    if valid_utf8(bytes) {
        Ok(decode_utf8(bytes))
    } else {
        Err(ErrorView::FromUtf8Error(utf8_failure(bytes)))
    }
}

/// The value of an attribute as a text: its entities are resolved, and what
/// is left is decoded. A value with an `&` that begins no entity is refused
/// with the error of the tokenizer, one that is no UTF-8 with that of the
/// decoding.
pub open spec fn decoded_value(raw: Seq<u8>) -> Result<Seq<char>, ErrorView> {
    match unescaped(raw) {
        Err(m) => Err(ErrorView::XMLError(m)),
        Ok(resolved) => decoded(resolved),
    }
}

/// The first `n` attributes of a tag as pairs of texts, the values with
/// their entities resolved; or the first error among them: that of the
/// tokenizer for an attribute that it could not read or for an entity that
/// it could not resolve, or that of a key or a value that is no UTF-8.
pub open spec fn decoded_attributes(raw: Seq<RawAttributeView>, n: int) -> Result<
    Seq<(Seq<char>, Seq<char>)>,
    ErrorView,
>
    decreases n,
{
    if n <= 0 || n > raw.len() {
        Ok(Seq::empty())
    } else {
        match decoded_attributes(raw, n - 1) {
            Err(e) => Err(e),
            Ok(before) => match raw[n - 1] {
                Err(m) => Err(ErrorView::XMLError(m)),
                Ok((k, v)) => match decoded(k) {
                    Err(e) => Err(e),
                    Ok(key) => match decoded_value(v) {
                        Err(e) => Err(e),
                        Ok(value) => Ok(before.push((key, value))),
                    },
                },
            },
        }
    }
}

/// The name of a tag: its first `name_len` bytes, or all of them if there
/// are fewer.
pub open spec fn tag_name(tag: XmlTagView) -> Seq<u8> {
    if tag.name_len <= tag.content.len() {
        tag.content.take(tag.name_len as int)
    } else {
        tag.content
    }
}

/// The element that a tag opens, with no children yet; or the first error in
/// its attributes, or that of a name that is no UTF-8.
pub open spec fn frame_of(tag: XmlTagView) -> Result<FrameView, ErrorView> {
    let raw = attributes_of(tag.content, tag.name_len);
    match decoded_attributes(raw, raw.len() as int) {
        Err(e) => Err(e),
        Ok(attributes) => match decoded(tag_name(tag)) {
            Err(e) => Err(e),
            Ok(element_name) => Ok(FrameView { element_name, attributes, elements: Seq::empty() }),
        },
    }
}

/// The attributes among the elements, in their order.
pub open spec fn attributes_among(elements: Seq<XesElementView>) -> Seq<AttributeView>
    decreases elements.len(),
{
    if elements.len() == 0 {
        Seq::empty()
    } else {
        match elements.last() {
            XesElementView::Attribute(x) => attributes_among(elements.drop_last()).push(x),
            _ => attributes_among(elements.drop_last()),
        }
    }
}

/// The extensions among the elements, in their order.
pub open spec fn extensions_among(elements: Seq<XesElementView>) -> Seq<ExtensionView>
    decreases elements.len(),
{
    if elements.len() == 0 {
        Seq::empty()
    } else {
        match elements.last() {
            XesElementView::Extension(x) => extensions_among(elements.drop_last()).push(x),
            _ => extensions_among(elements.drop_last()),
        }
    }
}

/// The globals among the elements, in their order.
pub open spec fn globals_among(elements: Seq<XesElementView>) -> Seq<GlobalView>
    decreases elements.len(),
{
    if elements.len() == 0 {
        Seq::empty()
    } else {
        match elements.last() {
            XesElementView::Global(x) => globals_among(elements.drop_last()).push(x),
            _ => globals_among(elements.drop_last()),
        }
    }
}

/// The classifiers among the elements, in their order.
pub open spec fn classifiers_among(elements: Seq<XesElementView>) -> Seq<ClassifierView>
    decreases elements.len(),
{
    if elements.len() == 0 {
        Seq::empty()
    } else {
        match elements.last() {
            XesElementView::Classifier(x) => classifiers_among(elements.drop_last()).push(x),
            _ => classifiers_among(elements.drop_last()),
        }
    }
}

/// The traces among the elements, in their order.
pub open spec fn traces_among(elements: Seq<XesElementView>) -> Seq<TraceView>
    decreases elements.len(),
{
    if elements.len() == 0 {
        Seq::empty()
    } else {
        match elements.last() {
            XesElementView::Trace(x) => traces_among(elements.drop_last()).push(x),
            _ => traces_among(elements.drop_last()),
        }
    }
}

/// The events among the elements, in their order.
pub open spec fn events_among(elements: Seq<XesElementView>) -> Seq<EventView>
    decreases elements.len(),
{
    if elements.len() == 0 {
        Seq::empty()
    } else {
        match elements.last() {
            XesElementView::Event(x) => events_among(elements.drop_last()).push(x),
            _ => events_among(elements.drop_last()),
        }
    }
}

/// The attributes that the `values` children among the elements hold, in
/// their order.
pub open spec fn values_among(elements: Seq<XesElementView>) -> Seq<AttributeView>
    decreases elements.len(),
{
    if elements.len() == 0 {
        Seq::empty()
    } else {
        match elements.last() {
            XesElementView::Value(v) => values_among(elements.drop_last()) + v,
            _ => values_among(elements.drop_last()),
        }
    }
}

fn decode(bytes: Vec<u8>) -> (r: Result<String, Error>)
    ensures
        match r {
            Ok(s) => decoded(bytes@) == Ok::<Seq<char>, ErrorView>(s@),
            Err(e) => decoded(bytes@) == Err::<Seq<char>, ErrorView>(e@),
        },
{
    match utf8_text(bytes) {
        Ok(s) => Ok(s),
        Err(m) => Err(Error::FromUtf8Error(m)),
    }
}

fn decode_value(raw: Vec<u8>) -> (r: Result<String, Error>)
    ensures
        match r {
            Ok(s) => decoded_value(raw@) == Ok::<Seq<char>, ErrorView>(s@),
            Err(e) => decoded_value(raw@) == Err::<Seq<char>, ErrorView>(e@),
        },
{
    match unescape_value(&raw) {
        Ok(resolved) => decode(resolved),
        Err(m) => Err(Error::XMLError(m)),
    }
}

impl XesIntermediate {
    /// The element that a tag opens, with no children yet.
    pub fn from_event(tag: XmlTag) -> (r: Result<XesIntermediate, Error>)
        ensures
            match r {
                Ok(frame) => frame_of(tag@) == Ok::<FrameView, ErrorView>(frame@),
                Err(e) => frame_of(tag@) == Err::<FrameView, ErrorView>(e@),
            },
    {
        let mut raw = tag_attributes(&tag.content, tag.name_len);
        let ghost shown = raw_views(raw@);
        let n = raw.len();
        let mut attributes: Vec<(String, String)> = Vec::new();
        let mut i: usize = 0;
        proof {
            assert(pairs(attributes@) =~= Seq::empty());
        }
        while i < n
            invariant
                n == raw@.len(),
                shown == attributes_of(tag.content@, tag.name_len as nat),
                shown.len() == n,
                0 <= i <= n,
                forall|j: int| i <= j < n ==> raw_view(#[trigger] raw@[j]) == shown[j],
                decoded_attributes(shown, i as int) == Ok::<
                    Seq<(Seq<char>, Seq<char>)>,
                    ErrorView,
                >(pairs(attributes@)),
            decreases n - i,
        {
            let mut item: RawAttribute = Err(String::new());
            core::mem::swap(&mut item, &mut raw[i]);
            proof {
                assert(raw_view(item) == shown[i as int]);
            }
            match item {
                Err(m) => {
                    proof {
                        lemma_decoded_attributes_fails(shown, i + 1, n as int);
                    }
                    return Err(Error::XMLError(m));
                },
                Ok((k, v)) => {
                    let key = match decode(k) {
                        Ok(s) => s,
                        Err(e) => {
                            proof {
                                lemma_decoded_attributes_fails(shown, i + 1, n as int);
                            }
                            return Err(e);
                        },
                    };
                    let value = match decode_value(v) {
                        Ok(s) => s,
                        Err(e) => {
                            proof {
                                lemma_decoded_attributes_fails(shown, i + 1, n as int);
                            }
                            return Err(e);
                        },
                    };
                    proof {
                        assert(pairs(attributes@.push((key, value))) =~= pairs(attributes@).push(
                            (key@, value@),
                        ));
                    }
                    attributes.push((key, value));
                },
            }
            i = i + 1;
        }
        let mut name: Vec<u8> = Vec::new();
        let mut j: usize = 0;
        while j < tag.name_len && j < tag.content.len()
            invariant
                0 <= j <= tag.name_len,
                j <= tag.content@.len(),
                name@ == tag.content@.take(j as int),
            decreases tag.content@.len() - j,
        {
            name.push(tag.content[j]);
            proof {
                assert(tag.content@.take(j as int).push(tag.content@[j as int])
                    =~= tag.content@.take(j + 1));
            }
            j = j + 1;
        }
        proof {
            assert(tag.content@.take(tag.content@.len() as int) =~= tag.content@);
            assert(name@ == tag_name(tag@));
        }
        let element_name = match decode(name) {
            Ok(s) => s,
            Err(e) => {
                return Err(e);
            },
        };
        let frame = XesIntermediate { element_name, attributes, elements: Vec::new() };
        proof {
            assert(views(frame.elements@) =~= Seq::<XesElementView>::empty());
        }
        Ok(frame)
    }

    /// The value of the attribute of the tag with the given key; without it,
    /// the error that names the key and the tag.
    pub fn get_attr(&self, key: &str) -> (r: Result<&String, Error>)
        ensures
            match r {
                Ok(value) => lookup(self@.attributes, key@) == Some(value@),
                Err(e) => lookup(self@.attributes, key@) is None && e@ == missing(
                    key@,
                    self@.element_name,
                ),
            },
    {
        let mut i: usize = self.attributes.len();
        proof {
            assert(pairs(self.attributes@).take(i as int) =~= pairs(self.attributes@));
        }
        while i > 0
            invariant
                0 <= i <= self.attributes@.len(),
                lookup(self@.attributes, key@) == lookup(self@.attributes.take(i as int), key@),
            decreases i,
        {
            i = i - 1;
            proof {
                let shorter = self@.attributes.take(i + 1);
                assert(shorter.drop_last() =~= self@.attributes.take(i as int));
                assert(shorter.last() == self@.attributes[i as int]);
            }
            if same_text(self.attributes[i].0.as_str(), key) {
                return Ok(&self.attributes[i].1);
            }
        }
        let message = String::from_str("missing ").concat(quoted(key).as_str()).concat(
            " attribute in ",
        ).concat(quoted(self.element_name.as_str()).as_str());
        Err(Error::KeyError(message))
    }

    /// Adds a complete child.
    pub fn add_element(&mut self, element: XesElement)
        ensures
            final(self)@ == (FrameView {
                elements: old(self)@.elements.push(element@),
                ..old(self)@
            }),
    {
        proof {
            lemma_views_push(self.elements@, element);
        }
        self.elements.push(element)
    }
}

/// Once an attribute could not be taken, all attributes cannot.
pub proof fn lemma_decoded_attributes_fails(raw: Seq<RawAttributeView>, k: int, n: int)
    requires
        0 <= k <= n <= raw.len(),
        decoded_attributes(raw, k) is Err,
    ensures
        decoded_attributes(raw, n) == decoded_attributes(raw, k),
    decreases n - k,
{
    if k < n {
        lemma_decoded_attributes_fails(raw, k, n - 1);
    }
}

/// The children of an element, sorted by their kind.
struct Parts {
    attributes: Vec<Attribute>,
    nested: Vec<Attribute>,
    extensions: Vec<Extension>,
    globals: Vec<Global>,
    classifiers: Vec<Classifier>,
    traces: Vec<Trace>,
    events: Vec<Event>,
}

/// The views of two lists, one after the other, are those of the joined list.
pub proof fn lemma_views_add<T: View>(a: Seq<T>, b: Seq<T>)
    ensures
        views(a + b) == views(a) + views(b),
{
    assert(views(a + b) =~= views(a) + views(b));
}

/// Sorts the children of an element by their kind, each kind in its order.
fn partition(elements: Vec<XesElement>) -> (parts: Parts)
    ensures
        views(parts.attributes@) == attributes_among(views(elements@)),
        views(parts.extensions@) == extensions_among(views(elements@)),
        views(parts.globals@) == globals_among(views(elements@)),
        views(parts.classifiers@) == classifiers_among(views(elements@)),
        views(parts.traces@) == traces_among(views(elements@)),
        views(parts.events@) == events_among(views(elements@)),
        views(parts.nested@) == values_among(views(elements@)),
{
    let mut rest = elements;
    let ghost shown = views(elements@);
    let mut parts = Parts {
        attributes: Vec::new(),
        nested: Vec::new(),
        extensions: Vec::new(),
        globals: Vec::new(),
        classifiers: Vec::new(),
        traces: Vec::new(),
        events: Vec::new(),
    };
    let n = rest.len();
    let mut i: usize = 0;
    proof {
        assert(shown.take(0).len() == 0);
        assert(views(parts.attributes@) =~= Seq::empty());
        assert(views(parts.nested@) =~= Seq::empty());
        assert(views(parts.extensions@) =~= Seq::empty());
        assert(views(parts.globals@) =~= Seq::empty());
        assert(views(parts.classifiers@) =~= Seq::empty());
        assert(views(parts.traces@) =~= Seq::empty());
        assert(views(parts.events@) =~= Seq::empty());
    }
    while i < n
        invariant
            n == rest@.len(),
            shown == views(elements@),
            shown.len() == n,
            0 <= i <= n,
            forall|j: int| i <= j < n ==> (#[trigger] rest@[j])@ == shown[j],
            views(parts.attributes@) == attributes_among(shown.take(i as int)),
            views(parts.extensions@) == extensions_among(shown.take(i as int)),
            views(parts.globals@) == globals_among(shown.take(i as int)),
            views(parts.classifiers@) == classifiers_among(shown.take(i as int)),
            views(parts.traces@) == traces_among(shown.take(i as int)),
            views(parts.events@) == events_among(shown.take(i as int)),
            views(parts.nested@) == values_among(shown.take(i as int)),
        decreases n - i,
    {
        let mut element = XesElement::Value(XesValue { attributes: Vec::new() });
        core::mem::swap(&mut element, &mut rest[i]);
        proof {
            assert(shown.take(i + 1).drop_last() =~= shown.take(i as int));
            assert(shown.take(i + 1).last() == element@);
        }
        match element {
            XesElement::Attribute(a) => {
                proof {
                    lemma_views_push(parts.attributes@, a);
                }
                parts.attributes.push(a);
            },
            XesElement::Value(v) => {
                let mut inner = v.attributes;
                proof {
                    lemma_views_add(parts.nested@, inner@);
                }
                parts.nested.append(&mut inner);
            },
            XesElement::Extension(e) => {
                proof {
                    lemma_views_push(parts.extensions@, e);
                }
                parts.extensions.push(e);
            },
            XesElement::Global(g) => {
                proof {
                    lemma_views_push(parts.globals@, g);
                }
                parts.globals.push(g);
            },
            XesElement::Classifier(c) => {
                proof {
                    lemma_views_push(parts.classifiers@, c);
                }
                parts.classifiers.push(c);
            },
            XesElement::Trace(t) => {
                proof {
                    lemma_views_push(parts.traces@, t);
                }
                parts.traces.push(t);
            },
            XesElement::Event(e) => {
                proof {
                    lemma_views_push(parts.events@, e);
                }
                parts.events.push(e);
            },
            XesElement::Log(_) => {},
        }
        i = i + 1;
    }
    proof {
        assert(shown.take(n as int) =~= shown);
    }
    parts
}

/// The value of an attribute that the tag must have.
pub open spec fn required(frame: FrameView, key: Seq<char>) -> Result<Seq<char>, ErrorView> {
    match lookup(frame.attributes, key) {
        Some(value) => Ok(value),
        None => Err(missing(key, frame.element_name)),
    }
}

/// The scope that the tag of a global or a classifier names: `event` or
/// `trace`. Without the attribute the key is reported as missing; any other
/// value is refused.
pub open spec fn scope_of(frame: FrameView) -> Result<Scope, ErrorView> {
    match required(frame, "scope"@) {
        Err(e) => Err(e),
        Ok(value) => if value == "event"@ {
            Ok(Scope::Event)
        } else if value == "trace"@ {
            Ok(Scope::Trace)
        } else {
            Err(ErrorView::XesError("invalid scope: "@ + debug_quoted(value)))
        },
    }
}

/// The typed value of an attribute element: for the element named `list` the
/// attributes that its `values` children hold, for the others what its
/// `value` attribute denotes in the type that the name of the element gives.
pub open spec fn value_of(frame: FrameView) -> Result<ValueView, ErrorView> {
    let value = required(frame, "value"@);
    if frame.element_name == "string"@ {
        match value {
            Ok(v) => Ok(ValueView::String(v)),
            Err(e) => Err(e),
        }
    } else if frame.element_name == "date"@ {
        match value {
            Ok(v) => match rfc3339_value(v) {
                Ok(d) => Ok(ValueView::Date(d)),
                Err(kind) => Err(ErrorView::ParseDateTimeError(kind)),
            },
            Err(e) => Err(e),
        }
    } else if frame.element_name == "int"@ {
        match value {
            Ok(v) => match int_value(v) {
                Ok(i) => Ok(ValueView::Int(i)),
                Err(kind) => Err(ErrorView::ParseIntError(kind)),
            },
            Err(e) => Err(e),
        }
    } else if frame.element_name == "float"@ {
        match value {
            Ok(v) => match float_check(v) {
                Ok(_) => Ok(ValueView::Float(v)),
                Err(kind) => Err(ErrorView::ParseFloatError(kind)),
            },
            Err(e) => Err(e),
        }
    } else if frame.element_name == "boolean"@ {
        match value {
            Ok(v) => match bool_value(v) {
                Some(b) => Ok(ValueView::Boolean(b)),
                None => Err(ErrorView::ParseBooleanError(v)),
            },
            Err(e) => Err(e),
        }
    } else if frame.element_name == "id"@ {
        match value {
            Ok(v) => Ok(ValueView::Id(v)),
            Err(e) => Err(e),
        }
    } else if frame.element_name == "list"@ {
        Ok(ValueView::List(values_among(frame.elements)))
    } else {
        Err(ErrorView::KeyError("unknown attribute "@ + frame.element_name))
    }
}

/// The attribute that an attribute element denotes: its key, which it must
/// have, and its typed value.
pub open spec fn attribute_of(frame: FrameView) -> Result<AttributeView, ErrorView> {
    match required(frame, "key"@) {
        Err(e) => Err(e),
        Ok(key) => match value_of(frame) {
            Err(e) => Err(e),
            Ok(value) => Ok(AttributeView { key, value }),
        },
    }
}

/// The extension that an `extension` element denotes: its name, prefix and
/// URI, each of which it must have.
pub open spec fn extension_of(frame: FrameView) -> Result<ExtensionView, ErrorView> {
    match required(frame, "name"@) {
        Err(e) => Err(e),
        Ok(name) => match required(frame, "prefix"@) {
            Err(e) => Err(e),
            Ok(prefix) => match required(frame, "uri"@) {
                Err(e) => Err(e),
                Ok(uri) => Ok(ExtensionView { name, prefix, uri }),
            },
        },
    }
}

/// The global that a `global` element denotes: its scope and the attributes
/// among its children.
pub open spec fn global_of(frame: FrameView) -> Result<GlobalView, ErrorView> {
    match scope_of(frame) {
        Err(e) => Err(e),
        Ok(scope) => Ok(GlobalView { scope, attributes: attributes_among(frame.elements) }),
    }
}

/// The classifier that a `classifier` element denotes: its name, scope and
/// keys, each of which it must have.
pub open spec fn classifier_of(frame: FrameView) -> Result<ClassifierView, ErrorView> {
    match required(frame, "name"@) {
        Err(e) => Err(e),
        Ok(name) => match scope_of(frame) {
            Err(e) => Err(e),
            Ok(scope) => match required(frame, "keys"@) {
                Err(e) => Err(e),
                Ok(keys) => Ok(ClassifierView { name, scope, keys }),
            },
        },
    }
}

/// The event that an `event` element denotes: the attributes among its
/// children.
pub open spec fn event_of(frame: FrameView) -> EventView {
    EventView { attributes: attributes_among(frame.elements) }
}

/// The trace that a `trace` element denotes: the attributes and the events
/// among its children.
pub open spec fn trace_of(frame: FrameView) -> TraceView {
    TraceView {
        attributes: attributes_among(frame.elements),
        events: events_among(frame.elements),
    }
}

/// The log that a `log` element denotes: its children, sorted by their kind.
pub open spec fn log_of(frame: FrameView) -> LogView {
    LogView {
        extensions: extensions_among(frame.elements),
        globals: globals_among(frame.elements),
        classifiers: classifiers_among(frame.elements),
        attributes: attributes_among(frame.elements),
        traces: traces_among(frame.elements),
        events: events_among(frame.elements),
    }
}

/// True of the names of the elements that are attributes.
pub open spec fn is_attribute_name(name: Seq<char>) -> bool {
    ||| name == "string"@
    ||| name == "date"@
    ||| name == "int"@
    ||| name == "float"@
    ||| name == "boolean"@
    ||| name == "id"@
    ||| name == "list"@
}

/// The typed element that a complete element of the document denotes, by the
/// name of its tag; an element of any other name is refused.
pub open spec fn element_of(frame: FrameView) -> Result<XesElementView, ErrorView> {
    if is_attribute_name(frame.element_name) {
        match attribute_of(frame) {
            Ok(a) => Ok(XesElementView::Attribute(a)),
            Err(e) => Err(e),
        }
    } else if frame.element_name == "values"@ {
        Ok(XesElementView::Value(attributes_among(frame.elements)))
    } else if frame.element_name == "extension"@ {
        match extension_of(frame) {
            Ok(x) => Ok(XesElementView::Extension(x)),
            Err(e) => Err(e),
        }
    } else if frame.element_name == "global"@ {
        match global_of(frame) {
            Ok(x) => Ok(XesElementView::Global(x)),
            Err(e) => Err(e),
        }
    } else if frame.element_name == "classifier"@ {
        match classifier_of(frame) {
            Ok(x) => Ok(XesElementView::Classifier(x)),
            Err(e) => Err(e),
        }
    } else if frame.element_name == "event"@ {
        Ok(XesElementView::Event(event_of(frame)))
    } else if frame.element_name == "trace"@ {
        Ok(XesElementView::Trace(trace_of(frame)))
    } else if frame.element_name == "log"@ {
        Ok(XesElementView::Log(log_of(frame)))
    } else {
        Err(ErrorView::XesError("unexpected XES element: "@ + debug_quoted(frame.element_name)))
    }
}

impl Scope {
    /// The scope that the tag of a global or a classifier names.
    pub fn try_from(intermediate: &XesIntermediate) -> (r: Result<Scope, Error>)
        ensures
            match r {
                Ok(scope) => scope_of(intermediate@) == Ok::<Scope, ErrorView>(scope),
                Err(e) => scope_of(intermediate@) == Err::<Scope, ErrorView>(e@),
            },
    {
        match intermediate.get_attr("scope") {
            Err(e) => Err(e),
            Ok(value) => {
                if same_text(value.as_str(), "event") {
                    Ok(Scope::Event)
                } else if same_text(value.as_str(), "trace") {
                    Ok(Scope::Trace)
                } else {
                    Err(
                        Error::XesError(
                            String::from_str("invalid scope: ").concat(
                                quoted(value.as_str()).as_str(),
                            ),
                        ),
                    )
                }
            },
        }
    }
}

impl AttributeType {
    /// The typed value of an attribute element.
    pub fn try_from(intermediate: XesIntermediate) -> (r: Result<AttributeType, Error>)
        ensures
            match r {
                Ok(value) => value_of(intermediate@) == Ok::<ValueView, ErrorView>(value@),
                Err(e) => value_of(intermediate@) == Err::<ValueView, ErrorView>(e@),
            },
    {
        let name = intermediate.element_name.as_str();
        if same_text(name, "string") {
            match intermediate.get_attr("value") {
                Ok(v) => Ok(AttributeType::String(v.clone())),
                Err(e) => Err(e),
            }
        } else if same_text(name, "date") {
            match intermediate.get_attr("value") {
                Ok(v) => match DateTime::parse_from_rfc3339(v.as_str()) {
                    Ok(d) => Ok(AttributeType::Date(d)),
                    Err(e) => Err(e),
                },
                Err(e) => Err(e),
            }
        } else if same_text(name, "int") {
            match intermediate.get_attr("value") {
                Ok(v) => match crate::text::parse_int(v.as_str()) {
                    Ok(i) => Ok(AttributeType::Int(i)),
                    Err(kind) => Err(Error::ParseIntError(kind)),
                },
                Err(e) => Err(e),
            }
        } else if same_text(name, "float") {
            match intermediate.get_attr("value") {
                Ok(v) => match crate::text::check_float(v.as_str()) {
                    Ok(_) => Ok(AttributeType::Float(v.clone())),
                    Err(kind) => Err(Error::ParseFloatError(kind)),
                },
                Err(e) => Err(e),
            }
        } else if same_text(name, "boolean") {
            match intermediate.get_attr("value") {
                Ok(v) => match crate::stream::xml_util::parse_bool(v.as_str()) {
                    Ok(b) => Ok(AttributeType::Boolean(b)),
                    Err(e) => Err(e),
                },
                Err(e) => Err(e),
            }
        } else if same_text(name, "id") {
            match intermediate.get_attr("value") {
                Ok(v) => Ok(AttributeType::Id(v.clone())),
                Err(e) => Err(e),
            }
        } else if same_text(name, "list") {
            let parts = partition(intermediate.elements);
            proof {
                lemma_list_view(parts.nested);
            }
            Ok(AttributeType::List(parts.nested))
        } else {
            Err(Error::KeyError(String::from_str("unknown attribute ").concat(name)))
        }
    }
}

impl Attribute {
    /// The attribute that an attribute element denotes.
    pub fn try_from(intermediate: XesIntermediate) -> (r: Result<Attribute, Error>)
        ensures
            match r {
                Ok(a) => attribute_of(intermediate@) == Ok::<AttributeView, ErrorView>(a@),
                Err(e) => attribute_of(intermediate@) == Err::<AttributeView, ErrorView>(e@),
            },
    {
        let key = match intermediate.get_attr("key") {
            Ok(k) => k.clone(),
            Err(e) => {
                return Err(e);
            },
        };
        match AttributeType::try_from(intermediate) {
            Ok(value) => Ok(Attribute { key, value }),
            Err(e) => Err(e),
        }
    }
}

impl XesValue {
    /// The attributes that a `values` element holds.
    pub fn try_from(intermediate: XesIntermediate) -> (r: Result<XesValue, Error>)
        ensures
            r matches Ok(v) && views(v.attributes@) == attributes_among(intermediate@.elements),
    {
        let parts = partition(intermediate.elements);
        Ok(XesValue { attributes: parts.attributes })
    }
}

impl Extension {
    /// The extension that an `extension` element denotes.
    pub fn try_from(intermediate: XesIntermediate) -> (r: Result<Extension, Error>)
        ensures
            match r {
                Ok(x) => extension_of(intermediate@) == Ok::<ExtensionView, ErrorView>(x@),
                Err(e) => extension_of(intermediate@) == Err::<ExtensionView, ErrorView>(e@),
            },
    {
        let name = match intermediate.get_attr("name") {
            Ok(v) => v.clone(),
            Err(e) => {
                return Err(e);
            },
        };
        let prefix = match intermediate.get_attr("prefix") {
            Ok(v) => v.clone(),
            Err(e) => {
                return Err(e);
            },
        };
        let uri = match intermediate.get_attr("uri") {
            Ok(v) => v.clone(),
            Err(e) => {
                return Err(e);
            },
        };
        Ok(Extension { name, prefix, uri })
    }
}

impl Global {
    /// The global that a `global` element denotes.
    pub fn try_from(intermediate: XesIntermediate) -> (r: Result<Global, Error>)
        ensures
            match r {
                Ok(x) => global_of(intermediate@) == Ok::<GlobalView, ErrorView>(x@),
                Err(e) => global_of(intermediate@) == Err::<GlobalView, ErrorView>(e@),
            },
    {
        let scope = match Scope::try_from(&intermediate) {
            Ok(s) => s,
            Err(e) => {
                return Err(e);
            },
        };
        let parts = partition(intermediate.elements);
        Ok(Global { scope, attributes: parts.attributes })
    }
}

impl Classifier {
    /// The classifier that a `classifier` element denotes.
    pub fn try_from(intermediate: XesIntermediate) -> (r: Result<Classifier, Error>)
        ensures
            match r {
                Ok(x) => classifier_of(intermediate@) == Ok::<ClassifierView, ErrorView>(x@),
                Err(e) => classifier_of(intermediate@) == Err::<ClassifierView, ErrorView>(e@),
            },
    {
        let name = match intermediate.get_attr("name") {
            Ok(v) => v.clone(),
            Err(e) => {
                return Err(e);
            },
        };
        let scope = match Scope::try_from(&intermediate) {
            Ok(s) => s,
            Err(e) => {
                return Err(e);
            },
        };
        let keys = match intermediate.get_attr("keys") {
            Ok(v) => v.clone(),
            Err(e) => {
                return Err(e);
            },
        };
        Ok(Classifier { name, scope, keys })
    }
}

impl Event {
    /// The event that an `event` element denotes.
    pub fn try_from(intermediate: XesIntermediate) -> (r: Result<Event, Error>)
        ensures
            r matches Ok(x) && x@ == event_of(intermediate@),
    {
        let parts = partition(intermediate.elements);
        Ok(Event { attributes: parts.attributes })
    }
}

impl Trace {
    /// The trace that a `trace` element denotes.
    pub fn try_from(intermediate: XesIntermediate) -> (r: Result<Trace, Error>)
        ensures
            r matches Ok(x) && x@ == trace_of(intermediate@),
    {
        let parts = partition(intermediate.elements);
        Ok(Trace { attributes: parts.attributes, events: parts.events })
    }
}

impl Log {
    /// The log that a `log` element denotes.
    pub fn try_from(intermediate: XesIntermediate) -> (r: Result<Log, Error>)
        ensures
            r matches Ok(x) && x@ == log_of(intermediate@),
    {
        let parts = partition(intermediate.elements);
        Ok(
            Log {
                extensions: parts.extensions,
                globals: parts.globals,
                classifiers: parts.classifiers,
                attributes: parts.attributes,
                traces: parts.traces,
                events: parts.events,
            },
        )
    }
}

fn attribute_name(name: &str) -> (r: bool)
    ensures
        r == is_attribute_name(name@),
{
    same_text(name, "string") || same_text(name, "date") || same_text(name, "int") || same_text(
        name,
        "float",
    ) || same_text(name, "boolean") || same_text(name, "id") || same_text(name, "list")
}

impl XesElement {
    /// The typed element that a complete element of the document denotes.
    pub fn try_from(intermediate: XesIntermediate) -> (r: Result<XesElement, Error>)
        ensures
            match r {
                Ok(x) => element_of(intermediate@) == Ok::<XesElementView, ErrorView>(x@),
                Err(e) => element_of(intermediate@) == Err::<XesElementView, ErrorView>(e@),
            },
    {
        let name = intermediate.element_name.as_str();
        if attribute_name(name) {
            match Attribute::try_from(intermediate) {
                Ok(x) => Ok(XesElement::Attribute(x)),
                Err(e) => Err(e),
            }
        } else if same_text(name, "values") {
            match XesValue::try_from(intermediate) {
                Ok(x) => Ok(XesElement::Value(x)),
                Err(e) => Err(e),
            }
        } else if same_text(name, "extension") {
            match Extension::try_from(intermediate) {
                Ok(x) => Ok(XesElement::Extension(x)),
                Err(e) => Err(e),
            }
        } else if same_text(name, "global") {
            match Global::try_from(intermediate) {
                Ok(x) => Ok(XesElement::Global(x)),
                Err(e) => Err(e),
            }
        } else if same_text(name, "classifier") {
            match Classifier::try_from(intermediate) {
                Ok(x) => Ok(XesElement::Classifier(x)),
                Err(e) => Err(e),
            }
        } else if same_text(name, "event") {
            match Event::try_from(intermediate) {
                Ok(x) => Ok(XesElement::Event(x)),
                Err(e) => Err(e),
            }
        } else if same_text(name, "trace") {
            match Trace::try_from(intermediate) {
                Ok(x) => Ok(XesElement::Trace(x)),
                Err(e) => Err(e),
            }
        } else if same_text(name, "log") {
            match Log::try_from(intermediate) {
                Ok(x) => Ok(XesElement::Log(x)),
                Err(e) => Err(e),
            }
        } else {
            Err(
                Error::XesError(
                    String::from_str("unexpected XES element: ").concat(quoted(name).as_str()),
                ),
            )
        }
    }
}

} // verus!
