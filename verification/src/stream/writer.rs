//! Writing: from the elements of a stream to the bytes of a document.

use vstd::prelude::*;
use vstd::string::*;

use crate::date::rfc3339_text;
use crate::error::{Error, ErrorView};
use crate::model::{
    lemma_list_view, views, Attribute, AttributeType, AttributeView, Classifier, ClassifierView,
    Event, EventView, Extension, ExtensionView, Global, GlobalView, Scope, Trace, TraceView,
    ValueView,
};
use crate::stream::markup::{Draft, XmlOut};
use crate::stream::xml::{text_pairs, Layout};
use crate::stream::xml_util::{
    is_name, is_ncname, is_token, is_uri, refusal, validate_name, validate_ncname, validate_token,
    validate_uri,
};
use crate::stream::{verdict, Element, ElementView, SinkCall, SinkRecord, StreamSink};
use crate::text::{int_decimal, int_text};

verus! {

/// The attributes of the tag of an attribute element: its key and its value.
pub open spec fn keyed(key: Seq<char>, value: Seq<char>) -> Seq<(Seq<char>, Seq<char>)> {
    seq![("key"@, key), ("value"@, value)]
}

/// The error for a date that no calendar date stands for.
pub open spec fn out_of_range() -> ErrorView {
    ErrorView::XesError("Date is out of range"@)
}

/// The word for a scope.
pub open spec fn scope_text(scope: Scope) -> Seq<char> {
    match scope {
        Scope::Event => "event"@,
        Scope::Trace => "trace"@,
    }
}

/// The word for a boolean.
pub open spec fn bool_text(b: bool) -> Seq<char> {
    if b {
        "true"@
    } else {
        "false"@
    }
}

/// The name of the element that holds a value of the given type.
pub open spec fn value_name(value: ValueView) -> Seq<char> {
    match value {
        ValueView::String(_) => "string"@,
        ValueView::Date(_) => "date"@,
        ValueView::Int(_) => "int"@,
        ValueView::Float(_) => "float"@,
        ValueView::Boolean(_) => "boolean"@,
        ValueView::Id(_) => "id"@,
        ValueView::List(_) => "list"@,
    }
}

/// The text that stands for a value in a document; `None` for a list, which
/// no text stands for, and for a date that no calendar date stands for.
pub open spec fn value_text(value: ValueView) -> Option<Seq<char>> {
    match value {
        ValueView::String(s) => Some(s),
        ValueView::Date(t) => rfc3339_text(t.secs, t.nanos, t.offset),
        ValueView::Int(i) => Some(int_decimal(i as int)),
        ValueView::Float(s) => Some(s),
        ValueView::Boolean(b) => Some(bool_text(b)),
        ValueView::Id(s) => Some(s),
        ValueView::List(_) => None,
    }
}

/// The draft after an attribute was written to it.
///
/// The key must be an XML name. A list becomes a `list` element with the key,
/// around a `values` element, around its members; any other value becomes an
/// empty element named after its type, with the key and the text of the
/// value.
pub open spec fn draw_attribute(d: Draft, a: AttributeView) -> Draft
    decreases a, 0nat,
{
    if d.failure is Some {
        d
    } else if !is_name(a.key) {
        d.fail(refusal("Name"@, a.key))
    } else {
        match a.value {
            ValueView::List(items) => draw_attributes(
                d.start("list"@, seq![("key"@, a.key)]).start("values"@, Seq::empty()),
                items,
                items.len(),
            ).end("values"@).end("list"@),
            other => match value_text(other) {
                Some(text) => d.empty(value_name(other), keyed(a.key, text)),
                None => d.fail(out_of_range()),
            },
        }
    }
}

/// The draft after the first `n` of the attributes were written to it, in
/// their order.
pub open spec fn draw_attributes(d: Draft, items: Seq<AttributeView>, n: nat) -> Draft
    decreases items, n,
{
    if n == 0 || n > items.len() {
        d
    } else {
        draw_attribute(draw_attributes(d, items, (n - 1) as nat), items[n - 1])
    }
}

/// The draft after an event was written to it: an `event` element around its
/// attributes.
pub open spec fn draw_event(d: Draft, e: EventView) -> Draft {
    draw_attributes(d.start("event"@, Seq::empty()), e.attributes, e.attributes.len()).end(
        "event"@,
    )
}

/// The draft after the first `n` of the events were written to it, in their
/// order.
pub open spec fn draw_events(d: Draft, events: Seq<EventView>, n: nat) -> Draft
    decreases n,
{
    if n == 0 || n > events.len() {
        d
    } else {
        draw_event(draw_events(d, events, (n - 1) as nat), events[n - 1])
    }
}

/// The draft after a trace was written to it: a `trace` element around its
/// attributes and, after them, its events.
pub open spec fn draw_trace(d: Draft, t: TraceView) -> Draft {
    draw_events(
        draw_attributes(d.start("trace"@, Seq::empty()), t.attributes, t.attributes.len()),
        t.events,
        t.events.len(),
    ).end("trace"@)
}

/// The draft after a global was written to it: a `global` element with its
/// scope, around its attributes.
pub open spec fn draw_global(d: Draft, g: GlobalView) -> Draft {
    draw_attributes(
        d.start("global"@, seq![("scope"@, scope_text(g.scope))]),
        g.attributes,
        g.attributes.len(),
    ).end("global"@)
}

/// The draft after an extension was written to it: an empty `extension`
/// element with name, prefix and URI. Name and prefix must be XML names
/// without a colon, the URI a URI reference.
pub open spec fn draw_extension(d: Draft, x: ExtensionView) -> Draft {
    if !is_ncname(x.name) {
        d.fail(refusal("NCName"@, x.name))
    } else if !is_ncname(x.prefix) {
        d.fail(refusal("NCName"@, x.prefix))
    } else if !is_uri(x.uri) {
        d.fail(refusal("anyURI"@, x.uri))
    } else {
        d.empty("extension"@, seq![("name"@, x.name), ("prefix"@, x.prefix), ("uri"@, x.uri)])
    }
}

/// The draft after a classifier was written to it: an empty `classifier`
/// element with name, scope and keys. The name must be an XML name without a
/// colon, the keys an XML token.
pub open spec fn draw_classifier(d: Draft, c: ClassifierView) -> Draft {
    if !is_ncname(c.name) {
        d.fail(refusal("NCName"@, c.name))
    } else if !is_token(c.keys) {
        d.fail(refusal("token"@, c.keys))
    } else {
        d.empty(
            "classifier"@,
            seq![("name"@, c.name), ("scope"@, scope_text(c.scope)), ("keys"@, c.keys)],
        )
    }
}

/// The draft after an element of a stream was written to it.
pub open spec fn draw_element(d: Draft, e: ElementView) -> Draft {
    match e {
        ElementView::Extension(x) => draw_extension(d, x),
        ElementView::Global(x) => draw_global(d, x),
        ElementView::Classifier(x) => draw_classifier(d, x),
        ElementView::Attribute(x) => draw_attribute(d, x),
        ElementView::Trace(x) => draw_trace(d, x),
        ElementView::Event(x) => draw_event(d, x),
    }
}

/// The first of the comments at the head of a document.
pub open spec fn generator_note() -> Seq<char> {
    " This file has been generated with promi "@ + crate::VERSION@ + " "@
}

/// The draft after a document was opened: the XML declaration, four
/// comments, and the start tag of the log.
pub open spec fn draw_opening(d: Draft) -> Draft {
    d.declaration("1.0"@, "UTF-8"@).comment(generator_note()).comment(
        " It conforms to the XML serialization of the XES standard (IEEE Std 1849-2016) "@,
    ).comment(" For log storage and management, see http://www.xes-standard.org. "@).comment(
        " promi is available at https://crates.io/crates/promi "@,
    ).start("log"@, seq![("xes.version"@, "1849.2016"@), ("xes.features"@, ""@)])
}

/// The draft after a document was closed: the end tag of the log.
pub open spec fn draw_closing(d: Draft) -> Draft {
    d.end("log"@).eof()
}

/// A draft that has failed stays as it is, whatever attributes are written.
pub proof fn lemma_draw_attributes_failed(d: Draft, items: Seq<AttributeView>, n: nat)
    requires
        d.failure is Some,
    ensures
        draw_attributes(d, items, n) == d,
    decreases n,
{
    reveal_with_fuel(draw_attributes, 2);
    reveal_with_fuel(draw_attribute, 2);
    if n > 0 && n <= items.len() {
        lemma_draw_attributes_failed(d, items, (n - 1) as nat);
    }
}

/// Once writing the attributes has failed, writing more of them changes
/// nothing.
pub proof fn lemma_draw_attributes_stuck(d: Draft, items: Seq<AttributeView>, k: nat, n: nat)
    requires
        k <= n <= items.len(),
        draw_attributes(d, items, k).failure is Some,
    ensures
        draw_attributes(d, items, n) == draw_attributes(d, items, k),
    decreases n - k,
{
    reveal_with_fuel(draw_attributes, 2);
    reveal_with_fuel(draw_attribute, 2);
    if k < n {
        lemma_draw_attributes_stuck(d, items, k, (n - 1) as nat);
    }
}

/// A draft that has failed stays as it is, whatever events are written.
pub proof fn lemma_draw_events_failed(d: Draft, events: Seq<EventView>, n: nat)
    requires
        d.failure is Some,
    ensures
        draw_events(d, events, n) == d,
    decreases n,
{
    if n > 0 && n <= events.len() {
        lemma_draw_events_failed(d, events, (n - 1) as nat);
        lemma_draw_attributes_failed(
            d,
            events[n - 1].attributes,
            events[n - 1].attributes.len(),
        );
    }
}

/// Once writing the events has failed, writing more of them changes nothing.
pub proof fn lemma_draw_events_stuck(d: Draft, events: Seq<EventView>, k: nat, n: nat)
    requires
        k <= n <= events.len(),
        draw_events(d, events, k).failure is Some,
    ensures
        draw_events(d, events, n) == draw_events(d, events, k),
    decreases n - k,
{
    if k < n {
        lemma_draw_events_stuck(d, events, k, (n - 1) as nat);
        let stuck = draw_events(d, events, k);
        lemma_draw_attributes_failed(
            stuck,
            events[n - 1].attributes,
            events[n - 1].attributes.len(),
        );
    }
}

fn pair(key: &str, value: &str) -> (r: (String, String))
    ensures
        r.0@ == key@,
        r.1@ == value@,
{
    (String::from_str(key), String::from_str(value))
}

fn key_and_value(key: &str, value: &str) -> (r: Vec<(String, String)>)
    ensures
        text_pairs(r@) == keyed(key@, value@),
{
    let mut r: Vec<(String, String)> = Vec::new();
    r.push(pair("key", key));
    r.push(pair("value", value));
    proof {
        assert(text_pairs(r@) =~= keyed(key@, value@));
    }
    r
}

/// Writes the attributes one after the other.
fn write_attributes(attributes: &Vec<Attribute>, out: &mut XmlOut) -> (r: Result<usize, Error>)
    requires
        old(out).wf(),
    ensures
        final(out).wf(),
        final(out).after(r) == draw_attributes(
            old(out).draft(),
            views(attributes@),
            attributes@.len(),
        ),
        final(out).counted(*old(out), r),
    decreases attributes, 0nat,
{
    let ghost shown = views(attributes@);
    let mut bytes: usize = 0;
    let mut i: usize = 0;
    proof {
        out.lemma_bounded();
    }
    while i < attributes.len()
        invariant
            out.wf(),
            shown == views(attributes@),
            0 <= i <= attributes@.len(),
            out.draft() == draw_attributes(old(out).draft(), shown, i as nat),
            old(out).bytes().len() <= out.bytes().len() <= usize::MAX,
            bytes == out.bytes().len() - old(out).bytes().len(),
        decreases attributes@.len() - i,
    {
        proof {
            assert(decreases_to!(*attributes => attributes[i as int]));
        }
        match attributes[i].write_xes(out) {
            Ok(n) => {
                bytes = bytes + n;
            },
            Err(e) => {
                proof {
                    lemma_draw_attributes_stuck(
                        old(out).draft(),
                        shown,
                        (i + 1) as nat,
                        shown.len(),
                    );
                }
                return Err(e);
            },
        }
        i = i + 1;
    }
    Ok(bytes)
}

/// Writes a list: a `list` element with the key, around a `values` element,
/// around the members.
fn write_list(key: &str, members: &Vec<Attribute>, out: &mut XmlOut) -> (r: Result<usize, Error>)
    requires
        old(out).wf(),
    ensures
        final(out).wf(),
        final(out).after(r) == draw_attributes(
            old(out).draft().start("list"@, seq![("key"@, key@)]).start("values"@, Seq::empty()),
            views(members@),
            members@.len(),
        ).end("values"@).end("list"@),
        final(out).counted(*old(out), r),
    decreases members, 1nat,
{
    let ghost d0 = out.draft();
    let mut keys: Vec<(String, String)> = Vec::new();
    keys.push(pair("key", key));
    let none: Vec<(String, String)> = Vec::new();
    proof {
        assert(text_pairs(keys@) =~= seq![("key"@, key@)]);
        assert(text_pairs(none@) =~= Seq::empty());
    }
    let ghost d1 = d0.start("list"@, seq![("key"@, key@)]);
    let ghost d2 = d1.start("values"@, Seq::empty());
    let mut bytes: usize = 0;
    match out.start("list", &keys) {
        Ok(n) => {
            bytes = bytes + n;
        },
        Err(e) => {
            proof {
                lemma_draw_attributes_failed(d2, views(members@), members@.len());
            }
            return Err(e);
        },
    }
    match out.start("values", &none) {
        Ok(n) => {
            bytes = bytes + n;
        },
        Err(e) => {
            proof {
                lemma_draw_attributes_failed(d2, views(members@), members@.len());
            }
            return Err(e);
        },
    }
    match write_attributes(members, out) {
        Ok(n) => {
            bytes = bytes + n;
        },
        Err(e) => {
            return Err(e);
        },
    }
    match out.end("values") {
        Ok(n) => {
            bytes = bytes + n;
        },
        Err(e) => {
            return Err(e);
        },
    }
    match out.end("list") {
        Ok(n) => {
            bytes = bytes + n;
        },
        Err(e) => {
            return Err(e);
        },
    }
    Ok(bytes)
}

impl Attribute {
    /// Writes the attribute as XML.
    pub fn write_xes(&self, out: &mut XmlOut) -> (r: Result<usize, Error>)
        requires
            old(out).wf(),
        ensures
            final(out).wf(),
            final(out).after(r) == draw_attribute(old(out).draft(), self@),
            final(out).counted(*old(out), r),
        decreases self, 0nat,
    {
        proof {
            out.lemma_bounded();
        }
        let key = match validate_name(self.key.as_str()) {
            Ok(k) => k,
            Err(e) => {
                return Err(e);
            },
        };
        match &self.value {
            AttributeType::List(l) => {
                proof {
                    lemma_list_view(*l);
                    assert(decreases_to!(self.value => self.value->List_0));
                }
                write_list(key, l, out)
            },
            AttributeType::String(v) => out.empty("string", &key_and_value(key, v.as_str())),
            AttributeType::Date(t) => match t.to_rfc3339() {
                Some(text) => out.empty("date", &key_and_value(key, text.as_str())),
                None => Err(Error::XesError(String::from_str("Date is out of range"))),
            },
            AttributeType::Int(v) => out.empty(
                "int",
                &key_and_value(key, int_text(*v).as_str()),
            ),
            AttributeType::Float(v) => out.empty("float", &key_and_value(key, v.as_str())),
            AttributeType::Boolean(v) => {
                if *v {
                    out.empty("boolean", &key_and_value(key, "true"))
                } else {
                    out.empty("boolean", &key_and_value(key, "false"))
                }
            },
            AttributeType::Id(v) => out.empty("id", &key_and_value(key, v.as_str())),
        }
    }
}

impl Event {
    /// Writes the event as XML.
    pub fn write_xes(&self, out: &mut XmlOut) -> (r: Result<usize, Error>)
        requires
            old(out).wf(),
        ensures
            final(out).wf(),
            final(out).after(r) == draw_event(old(out).draft(), self@),
            final(out).counted(*old(out), r),
    {
        let none: Vec<(String, String)> = Vec::new();
        proof {
            assert(text_pairs(none@) =~= Seq::empty());
        }
        let ghost d1 = out.draft().start("event"@, Seq::empty());
        let mut bytes: usize = 0;
        match out.start("event", &none) {
            Ok(n) => {
                bytes = bytes + n;
            },
            Err(e) => {
                proof {
                    lemma_draw_attributes_failed(
                        d1,
                        views(self.attributes@),
                        self.attributes@.len(),
                    );
                }
                return Err(e);
            },
        }
        match write_attributes(&self.attributes, out) {
            Ok(n) => {
                bytes = bytes + n;
            },
            Err(e) => {
                return Err(e);
            },
        }
        match out.end("event") {
            Ok(n) => {
                bytes = bytes + n;
            },
            Err(e) => {
                return Err(e);
            },
        }
        Ok(bytes)
    }
}

/// Writes the events one after the other.
fn write_events(events: &Vec<Event>, out: &mut XmlOut) -> (r: Result<usize, Error>)
    requires
        old(out).wf(),
    ensures
        final(out).wf(),
        final(out).after(r) == draw_events(old(out).draft(), views(events@), events@.len()),
        final(out).counted(*old(out), r),
{
    let ghost shown = views(events@);
    let mut bytes: usize = 0;
    let mut i: usize = 0;
    proof {
        out.lemma_bounded();
    }
    while i < events.len()
        invariant
            out.wf(),
            shown == views(events@),
            0 <= i <= events@.len(),
            out.draft() == draw_events(old(out).draft(), shown, i as nat),
            old(out).bytes().len() <= out.bytes().len() <= usize::MAX,
            bytes == out.bytes().len() - old(out).bytes().len(),
        decreases events@.len() - i,
    {
        match events[i].write_xes(out) {
            Ok(n) => {
                bytes = bytes + n;
            },
            Err(e) => {
                proof {
                    lemma_draw_events_stuck(old(out).draft(), shown, (i + 1) as nat, shown.len());
                }
                return Err(e);
            },
        }
        i = i + 1;
    }
    Ok(bytes)
}

impl Trace {
    /// Writes the trace as XML.
    pub fn write_xes(&self, out: &mut XmlOut) -> (r: Result<usize, Error>)
        requires
            old(out).wf(),
        ensures
            final(out).wf(),
            final(out).after(r) == draw_trace(old(out).draft(), self@),
            final(out).counted(*old(out), r),
    {
        let none: Vec<(String, String)> = Vec::new();
        proof {
            assert(text_pairs(none@) =~= Seq::empty());
        }
        let ghost d1 = out.draft().start("trace"@, Seq::empty());
        let ghost d2 = draw_attributes(d1, views(self.attributes@), self.attributes@.len());
        let mut bytes: usize = 0;
        match out.start("trace", &none) {
            Ok(n) => {
                bytes = bytes + n;
            },
            Err(e) => {
                proof {
                    lemma_draw_attributes_failed(
                        d1,
                        views(self.attributes@),
                        self.attributes@.len(),
                    );
                    lemma_draw_events_failed(d2, views(self.events@), self.events@.len());
                }
                return Err(e);
            },
        }
        match write_attributes(&self.attributes, out) {
            Ok(n) => {
                bytes = bytes + n;
            },
            Err(e) => {
                proof {
                    lemma_draw_events_failed(d2, views(self.events@), self.events@.len());
                }
                return Err(e);
            },
        }
        match write_events(&self.events, out) {
            Ok(n) => {
                bytes = bytes + n;
            },
            Err(e) => {
                return Err(e);
            },
        }
        match out.end("trace") {
            Ok(n) => {
                bytes = bytes + n;
            },
            Err(e) => {
                return Err(e);
            },
        }
        Ok(bytes)
    }
}

fn scope_word(scope: &Scope) -> (r: &'static str)
    ensures
        r@ == scope_text(*scope),
{
    match scope {
        Scope::Event => "event",
        Scope::Trace => "trace",
    }
}

impl Global {
    /// Writes the global as XML.
    pub fn write_xes(&self, out: &mut XmlOut) -> (r: Result<usize, Error>)
        requires
            old(out).wf(),
        ensures
            final(out).wf(),
            final(out).after(r) == draw_global(old(out).draft(), self@),
            final(out).counted(*old(out), r),
    {
        let mut scope: Vec<(String, String)> = Vec::new();
        scope.push(pair("scope", scope_word(&self.scope)));
        proof {
            assert(text_pairs(scope@) =~= seq![("scope"@, scope_text(self.scope))]);
        }
        let ghost d1 = out.draft().start("global"@, seq![("scope"@, scope_text(self.scope))]);
        let mut bytes: usize = 0;
        match out.start("global", &scope) {
            Ok(n) => {
                bytes = bytes + n;
            },
            Err(e) => {
                proof {
                    lemma_draw_attributes_failed(
                        d1,
                        views(self.attributes@),
                        self.attributes@.len(),
                    );
                }
                return Err(e);
            },
        }
        match write_attributes(&self.attributes, out) {
            Ok(n) => {
                bytes = bytes + n;
            },
            Err(e) => {
                return Err(e);
            },
        }
        match out.end("global") {
            Ok(n) => {
                bytes = bytes + n;
            },
            Err(e) => {
                return Err(e);
            },
        }
        Ok(bytes)
    }
}

impl Extension {
    /// Writes the extension as XML.
    pub fn write_xes(&self, out: &mut XmlOut) -> (r: Result<usize, Error>)
        requires
            old(out).wf(),
        ensures
            final(out).wf(),
            final(out).after(r) == draw_extension(old(out).draft(), self@),
            final(out).counted(*old(out), r),
    {
        proof {
            out.lemma_bounded();
        }
        let name = match validate_ncname(self.name.as_str()) {
            Ok(v) => v,
            Err(e) => {
                return Err(e);
            },
        };
        let prefix = match validate_ncname(self.prefix.as_str()) {
            Ok(v) => v,
            Err(e) => {
                return Err(e);
            },
        };
        let uri = match validate_uri(self.uri.as_str()) {
            Ok(v) => v,
            Err(e) => {
                return Err(e);
            },
        };
        let mut attributes: Vec<(String, String)> = Vec::new();
        attributes.push(pair("name", name));
        attributes.push(pair("prefix", prefix));
        attributes.push(pair("uri", uri));
        proof {
            assert(text_pairs(attributes@) =~= seq![
                ("name"@, self.name@),
                ("prefix"@, self.prefix@),
                ("uri"@, self.uri@),
            ]);
        }
        out.empty("extension", &attributes)
    }
}

impl Classifier {
    /// Writes the classifier as XML.
    pub fn write_xes(&self, out: &mut XmlOut) -> (r: Result<usize, Error>)
        requires
            old(out).wf(),
        ensures
            final(out).wf(),
            final(out).after(r) == draw_classifier(old(out).draft(), self@),
            final(out).counted(*old(out), r),
    {
        proof {
            out.lemma_bounded();
        }
        let name = match validate_ncname(self.name.as_str()) {
            Ok(v) => v,
            Err(e) => {
                return Err(e);
            },
        };
        let keys = match validate_token(self.keys.as_str()) {
            Ok(v) => v,
            Err(e) => {
                return Err(e);
            },
        };
        let mut attributes: Vec<(String, String)> = Vec::new();
        attributes.push(pair("name", name));
        attributes.push(pair("scope", scope_word(&self.scope)));
        attributes.push(pair("keys", keys));
        proof {
            assert(text_pairs(attributes@) =~= seq![
                ("name"@, self.name@),
                ("scope"@, scope_text(self.scope)),
                ("keys"@, self.keys@),
            ]);
        }
        out.empty("classifier", &attributes)
    }
}

/// XML serialization of XES.
///
/// Writes into memory; the bytes are handed out by `inner` and `into_inner`.
pub struct XesWriter {
    writer: XmlOut,
    bytes_written: usize,
    told: Ghost<Seq<SinkRecord>>,
}

impl XesWriter {
    /// The document as it stands.
    pub closed spec fn draft(&self) -> Draft {
        self.writer.draft()
    }

    /// The number of bytes that the hooks have counted as written.
    pub closed spec fn count(&self) -> nat {
        self.bytes_written as nat
    }

    /// The document as it stands after a hook has answered.
    pub open spec fn after(&self, r: Result<(), Error>) -> Draft {
        Draft {
            failure: match r {
                Ok(_) => None,
                Err(e) => Some(e@),
            },
            ..self.draft()
        }
    }

    /// True if the count has grown by the bytes that a hook has written,
    /// where the hook succeeded, and is unchanged, where it failed.
    pub open spec fn counted(&self, before: XesWriter, r: Result<(), Error>) -> bool {
        &&& before.draft().bytes.len() <= self.draft().bytes.len()
        &&& self.count() == if r is Ok {
            before.count() + self.draft().bytes.len() - before.draft().bytes.len()
        } else {
            before.count() as int
        }
    }

    /// A writer that continues the given bytes. Children are indented by
    /// `indent_size` times `indent_char` more than their parent: by one tab
    /// if nothing else is asked for.
    pub fn new(writer: Vec<u8>, indent_char: Option<u8>, indent_size: Option<usize>) -> (r: Self)
        ensures
            r.inv(),
            r.journal() == Seq::<SinkRecord>::empty(),
            r.count() == 0,
            r.draft() == (Draft {
                bytes: writer@,
                layout: Layout {
                    line_break: false,
                    width: 0,
                    fill: match indent_char {
                        Some(c) => c,
                        None => 9u8,
                    },
                    step: match indent_size {
                        Some(n) => n as nat,
                        None => 1nat,
                    },
                },
                failure: None,
            }),
    {
        let fill: u8 = match indent_char {
            Some(c) => c,
            None => 9u8,
        };
        let step: usize = match indent_size {
            Some(n) => n,
            None => 1,
        };
        XesWriter { writer: XmlOut::new(writer, fill, step), bytes_written: 0, told: Ghost(Seq::empty()) }
    }

    /// The number of bytes written by the hooks that succeeded.
    pub fn bytes_written(&self) -> (r: usize)
        ensures
            r == self.count(),
    {
        self.bytes_written
    }

    /// Get a reference of the underlying writer.
    pub fn inner(&mut self) -> (r: &Vec<u8>)
        ensures
            r@ == old(self).draft().bytes,
            *final(self) == *old(self),
    {
        self.writer.inner()
    }

    /// Release the underlying writer.
    pub fn into_inner(self) -> (r: Vec<u8>)
        ensures
            r@ == self.draft().bytes,
    {
        self.writer.into_inner()
    }

    /// Writes the head of a document.
    fn open(&mut self) -> (r: Result<usize, Error>)
        requires
            old(self).writer.wf(),
        ensures
            final(self).writer.wf(),
            final(self).writer.after(r) == draw_opening(old(self).writer.draft()),
            final(self).writer.counted(old(self).writer, r),
            final(self).bytes_written == old(self).bytes_written,
            final(self).told == old(self).told,
    {
        let mut bytes: usize = 0;
        match self.writer.declaration("1.0", "UTF-8") {
            Ok(n) => {
                bytes = bytes + n;
            },
            Err(e) => {
                return Err(e);
            },
        }
        let note = String::from_str(" This file has been generated with promi ").concat(
            crate::VERSION,
        ).concat(" ");
        match self.writer.comment(note.as_str()) {
            Ok(n) => {
                bytes = bytes + n;
            },
            Err(e) => {
                return Err(e);
            },
        }
        match self.writer.comment(
            " It conforms to the XML serialization of the XES standard (IEEE Std 1849-2016) ",
        ) {
            Ok(n) => {
                bytes = bytes + n;
            },
            Err(e) => {
                return Err(e);
            },
        }
        match self.writer.comment(
            " For log storage and management, see http://www.xes-standard.org. ",
        ) {
            Ok(n) => {
                bytes = bytes + n;
            },
            Err(e) => {
                return Err(e);
            },
        }
        match self.writer.comment(" promi is available at https://crates.io/crates/promi ") {
            Ok(n) => {
                bytes = bytes + n;
            },
            Err(e) => {
                return Err(e);
            },
        }
        let mut attributes: Vec<(String, String)> = Vec::new();
        attributes.push(pair("xes.version", "1849.2016"));
        attributes.push(pair("xes.features", ""));
        proof {
            assert(text_pairs(attributes@) =~= seq![
                ("xes.version"@, "1849.2016"@),
                ("xes.features"@, ""@),
            ]);
        }
        match self.writer.start("log", &attributes) {
            Ok(n) => {
                bytes = bytes + n;
            },
            Err(e) => {
                return Err(e);
            },
        }
        Ok(bytes)
    }

    /// Writes the tail of a document.
    fn close(&mut self) -> (r: Result<usize, Error>)
        requires
            old(self).writer.wf(),
        ensures
            final(self).writer.wf(),
            final(self).writer.after(r) == draw_closing(old(self).writer.draft()),
            final(self).writer.counted(old(self).writer, r),
            final(self).bytes_written == old(self).bytes_written,
            final(self).told == old(self).told,
    {
        let mut bytes: usize = 0;
        match self.writer.end("log") {
            Ok(n) => {
                bytes = bytes + n;
            },
            Err(e) => {
                return Err(e);
            },
        }
        match self.writer.eof() {
            Ok(n) => {
                bytes = bytes + n;
            },
            Err(e) => {
                return Err(e);
            },
        }
        Ok(bytes)
    }

    /// Counts what a hook has written and makes its answer.
    fn settle(&mut self, call: Ghost<SinkCall>, before: Ghost<XesWriter>, written: Result<usize, Error>) -> (r:
        Result<(), Error>)
        requires
            old(self).writer.wf(),
            old(self).bytes_written == before@.bytes_written,
            before@.bytes_written <= before@.writer.bytes().len(),
            old(self).writer.counted(before@.writer, written),
        ensures
            final(self).writer == old(self).writer,
            final(self).inv(),
            final(self).told@ == old(self).told@.push(SinkRecord { call: call@, result: verdict(r) }),
            final(self).counted(before@, r),
            verdict(r) == match written {
                Ok(_) => Ok::<(), ErrorView>(()),
                Err(e) => Err::<(), ErrorView>(e@),
            },
    {
        let r = match written {
            Ok(n) => {
                self.bytes_written = self.bytes_written + n;
                Ok(())
            },
            Err(e) => Err(e),
        };
        self.told = Ghost(self.told@.push(SinkRecord { call: call@, result: verdict(r) }));
        r
    }
}

impl StreamSink for XesWriter {
    closed spec fn inv(&self) -> bool {
        &&& self.writer.wf()
        &&& self.bytes_written <= self.writer.bytes().len()
    }

    closed spec fn journal(&self) -> Seq<SinkRecord> {
        self.told@
    }

    /// Writes the XML declaration, four comments, and the start tag of the
    /// log.
    fn on_open(&mut self) -> (r: Result<(), Error>)
        ensures
            final(self).after(r) == draw_opening(old(self).draft()),
            final(self).counted(*old(self), r),
    {
        let ghost before = *self;
        let written = self.open();
        self.settle(Ghost(SinkCall::Open), Ghost(before), written)
    }

    /// Writes the element.
    fn on_element(&mut self, element: Element) -> (r: Result<(), Error>)
        ensures
            final(self).after(r) == draw_element(old(self).draft(), element@),
            final(self).counted(*old(self), r),
    {
        let ghost before = *self;
        let written = match &element {
            Element::Extension(x) => x.write_xes(&mut self.writer),
            Element::Global(x) => x.write_xes(&mut self.writer),
            Element::Classifier(x) => x.write_xes(&mut self.writer),
            Element::Attribute(x) => x.write_xes(&mut self.writer),
            Element::Trace(x) => x.write_xes(&mut self.writer),
            Element::Event(x) => x.write_xes(&mut self.writer),
        };
        self.settle(Ghost(SinkCall::Element(element@)), Ghost(before), written)
    }

    /// Writes the end tag of the log.
    fn on_close(&mut self) -> (r: Result<(), Error>)
        ensures
            final(self).after(r) == draw_closing(old(self).draft()),
            final(self).counted(*old(self), r),
    {
        let ghost before = *self;
        let written = self.close();
        self.settle(Ghost(SinkCall::Close), Ghost(before), written)
    }

    /// Writes nothing.
    fn on_error(&mut self, error: Error) -> (r: Result<(), Error>)
        ensures
            r is Ok,
            final(self).draft() == old(self).draft(),
            final(self).count() == old(self).count(),
    {
        self.told = Ghost(
            self.told@.push(SinkRecord { call: SinkCall::Error(error@), result: Ok(()) }),
        );
        Ok(())
    }
}

} // verus!
