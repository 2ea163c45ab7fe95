//! XML serialization and deserialization of XES.
//!
//! For reading, a superset of XES is understood: a child that does not belong
//! where it stands is passed over. The entities in the value of an attribute
//! are resolved on reading, and the characters that markup cannot hold are
//! put into entities on writing.
//!
//! Between the two stands the tokenizer. The laws of this module speak of
//! what lies on this side of it: an element with the name, the attributes
//! and the children that the writer gives it is read as the typed element
//! that was written. That the tokenizer finds in a written document the
//! elements that were written, and that resolving the entities undoes the
//! escaping, is the work of `quick_xml` and is not proved.

use vstd::prelude::*;

use crate::date::rfc3339_value;
use crate::error::{DateErrorKind, ErrorView};
use crate::model::{
    AttributeView, ClassifierView, DateTime, EventView, ExtensionView, GlobalView, TraceView,
    ValueView,
};
use crate::stream::frame::{
    attributes_among, element_of, events_among, lookup, FrameView, XesElementView,
};
use crate::stream::reader::{accept, no_root, scan};
use crate::stream::xml::XmlTokenView;
use crate::stream::xml_util::bool_value;
use crate::stream::ElementView;
use crate::stream::writer::{keyed, scope_text, value_name, value_text};
use crate::text::{float_check, lemma_int_text_reads_back};

pub use crate::stream::frame::{XesElement, XesIntermediate, XesValue};
pub use crate::stream::reader::XesReader;
pub use crate::stream::writer::XesWriter;

verus! {

/// The names of the elements and of their attributes differ from one
/// another.
proof fn lemma_names_differ()
    ensures
        "date"@ != "list"@,
        "global"@ != "string"@,
        "global"@ != "values"@,
        "values"@ != "string"@,
        "event"@ != "float"@,
        "trace"@ != "float"@,
        "trace"@ != "event"@,
        "name"@ != "keys"@,
        "true"@ != "false"@,
        "string"@.len() == 6,
        "date"@.len() == 4,
        "int"@.len() == 3,
        "float"@.len() == 5,
        "boolean"@.len() == 7,
        "id"@.len() == 2,
        "list"@.len() == 4,
        "values"@.len() == 6,
        "extension"@.len() == 9,
        "global"@.len() == 6,
        "classifier"@.len() == 10,
        "event"@.len() == 5,
        "trace"@.len() == 5,
        "key"@.len() == 3,
        "value"@.len() == 5,
        "name"@.len() == 4,
        "prefix"@.len() == 6,
        "uri"@.len() == 3,
        "scope"@.len() == 5,
        "keys"@.len() == 4,
{
    reveal_strlit("string");
    reveal_strlit("date");
    reveal_strlit("int");
    reveal_strlit("float");
    reveal_strlit("boolean");
    reveal_strlit("id");
    reveal_strlit("list");
    reveal_strlit("values");
    reveal_strlit("extension");
    reveal_strlit("global");
    reveal_strlit("classifier");
    reveal_strlit("event");
    reveal_strlit("trace");
    reveal_strlit("key");
    reveal_strlit("value");
    reveal_strlit("name");
    reveal_strlit("prefix");
    reveal_strlit("uri");
    reveal_strlit("scope");
    reveal_strlit("keys");
    reveal_strlit("true");
    reveal_strlit("false");
    assert("date"@[0] != "list"@[0]);
    assert("global"@[0] != "string"@[0]);
    assert("global"@[0] != "values"@[0]);
    assert("values"@[0] != "string"@[0]);
    assert("event"@[0] != "float"@[0]);
    assert("trace"@[0] != "float"@[0]);
    assert("trace"@[0] != "event"@[0]);
    assert("name"@[0] != "keys"@[0]);
    assert("true"@.len() != "false"@.len());
}

/// The attributes as the children of an element.
pub open spec fn as_children(attributes: Seq<AttributeView>) -> Seq<XesElementView> {
    Seq::new(attributes.len(), |i: int| XesElementView::Attribute(attributes[i]))
}

/// The events as the children of an element.
pub open spec fn events_as_children(events: Seq<EventView>) -> Seq<XesElementView> {
    Seq::new(events.len(), |i: int| XesElementView::Event(events[i]))
}

/// The attributes among children that are followed by events are the
/// attributes; the events among them are the events.
pub proof fn lemma_children_are_sorted(attributes: Seq<AttributeView>, events: Seq<EventView>)
    ensures
        attributes_among(as_children(attributes) + events_as_children(events)) == attributes,
        events_among(as_children(attributes) + events_as_children(events)) == events,
    decreases attributes.len() + events.len(),
{
    let children = as_children(attributes) + events_as_children(events);
    if events.len() > 0 {
        lemma_children_are_sorted(attributes, events.drop_last());
        assert(children.drop_last() =~= as_children(attributes) + events_as_children(
            events.drop_last(),
        ));
        assert(children.last() == XesElementView::Event(events.last()));
        assert(events.drop_last().push(events.last()) =~= events);
    } else if attributes.len() > 0 {
        lemma_children_are_sorted(attributes.drop_last(), events);
        assert(children.drop_last() =~= as_children(attributes.drop_last()) + events_as_children(
            events,
        ));
        assert(children.last() == XesElementView::Attribute(attributes.last()));
        assert(attributes.drop_last().push(attributes.last()) =~= attributes);
        assert(events =~= Seq::empty());
    } else {
        assert(children =~= Seq::empty());
        assert(attributes =~= Seq::empty());
        assert(events =~= Seq::empty());
    }
}

/// An element with the name that the writer gives to an attribute that is
/// no list, and with the key and the text of the value as its attributes, is
/// typed as that attribute, whatever its children: if the attribute is a
/// float, its text must be a floating-point literal, and if it is a date, the
/// text that is written for it must denote the date. The attributes are
/// taken as texts, as they are before escaping and after the entities are
/// resolved.
pub proof fn lemma_attribute_element_is_typed(a: AttributeView, children: Seq<XesElementView>)
    requires
        !(a.value is List),
        value_text(a.value) is Some,
        a.value is Float ==> float_check(a.value->Float_0) is Ok,
        a.value is Date ==> rfc3339_value(value_text(a.value)->Some_0) == Ok::<
            DateTime,
            DateErrorKind,
        >(a.value->Date_0),
    ensures
        element_of(
            FrameView {
                element_name: value_name(a.value),
                attributes: keyed(a.key, value_text(a.value)->Some_0),
                elements: children,
            },
        ) == Ok::<XesElementView, ErrorView>(XesElementView::Attribute(a)),
{
    lemma_names_differ();
    reveal_with_fuel(lookup, 3);
    let tag = keyed(a.key, value_text(a.value)->Some_0);
    assert(tag.drop_last() =~= seq![("key"@, a.key)]);
    assert(tag.drop_last().drop_last() =~= Seq::empty());
    assert(lookup(tag, "key"@) == Some(a.key));
    assert(lookup(tag, "value"@) == value_text(a.value));
    match a.value {
        ValueView::Int(i) => {
            lemma_int_text_reads_back(i);
        },
        _ => {},
    }
}

/// An element named `list` with the key as its attribute and with the
/// members in one `values` child, as the writer lays a list out, is typed as
/// that list.
pub proof fn lemma_list_element_is_typed(key: Seq<char>, members: Seq<AttributeView>)
    ensures
        element_of(
            FrameView {
                element_name: "list"@,
                attributes: seq![("key"@, key)],
                elements: seq![XesElementView::Value(members)],
            },
        ) == Ok::<XesElementView, ErrorView>(
            XesElementView::Attribute(AttributeView { key, value: ValueView::List(members) }),
        ),
{
    lemma_names_differ();
    reveal_with_fuel(lookup, 2);
    reveal_with_fuel(crate::stream::frame::values_among, 2);
    let children = seq![XesElementView::Value(members)];
    assert(children.drop_last() =~= Seq::empty());
    assert(Seq::<AttributeView>::empty() + members =~= members);
}

/// An element named `extension` with the three texts of an extension as
/// its attributes, as the writer lays it out, is typed as that extension.
pub proof fn lemma_extension_element_is_typed(x: ExtensionView, children: Seq<XesElementView>)
    ensures
        element_of(
            FrameView {
                element_name: "extension"@,
                attributes: seq![("name"@, x.name), ("prefix"@, x.prefix), ("uri"@, x.uri)],
                elements: children,
            },
        ) == Ok::<XesElementView, ErrorView>(XesElementView::Extension(x)),
{
    lemma_names_differ();
    reveal_with_fuel(lookup, 4);
    let tag = seq![("name"@, x.name), ("prefix"@, x.prefix), ("uri"@, x.uri)];
    assert(tag.drop_last() =~= seq![("name"@, x.name), ("prefix"@, x.prefix)]);
    assert(tag.drop_last().drop_last() =~= seq![("name"@, x.name)]);
    assert(lookup(tag, "name"@) == Some(x.name));
    assert(lookup(tag, "prefix"@) == Some(x.prefix));
    assert(lookup(tag, "uri"@) == Some(x.uri));
}

/// An element named `classifier` with the name, the scope and the keys of
/// a classifier as its attributes, as the writer lays it out, is typed as
/// that classifier.
pub proof fn lemma_classifier_element_is_typed(c: ClassifierView, children: Seq<XesElementView>)
    ensures
        element_of(
            FrameView {
                element_name: "classifier"@,
                attributes: seq![
                    ("name"@, c.name),
                    ("scope"@, scope_text(c.scope)),
                    ("keys"@, c.keys),
                ],
                elements: children,
            },
        ) == Ok::<XesElementView, ErrorView>(XesElementView::Classifier(c)),
{
    lemma_names_differ();
    reveal_with_fuel(lookup, 4);
    let tag = seq![("name"@, c.name), ("scope"@, scope_text(c.scope)), ("keys"@, c.keys)];
    assert(tag.drop_last() =~= seq![("name"@, c.name), ("scope"@, scope_text(c.scope))]);
    assert(tag.drop_last().drop_last() =~= seq![("name"@, c.name)]);
    assert(lookup(tag, "name"@) == Some(c.name));
    assert(lookup(tag, "scope"@) == Some(scope_text(c.scope)));
    assert(lookup(tag, "keys"@) == Some(c.keys));
}

/// Elements named `global`, `event` and `trace`, each with its members as
/// its children in the order in which the writer puts them, are typed as
/// that global, event and trace.
pub proof fn lemma_container_elements_are_typed(g: GlobalView, e: EventView, t: TraceView)
    ensures
        element_of(
            FrameView {
                element_name: "global"@,
                attributes: seq![("scope"@, scope_text(g.scope))],
                elements: as_children(g.attributes),
            },
        ) == Ok::<XesElementView, ErrorView>(XesElementView::Global(g)),
        element_of(
            FrameView {
                element_name: "event"@,
                attributes: Seq::empty(),
                elements: as_children(e.attributes),
            },
        ) == Ok::<XesElementView, ErrorView>(XesElementView::Event(e)),
        element_of(
            FrameView {
                element_name: "trace"@,
                attributes: Seq::empty(),
                elements: as_children(t.attributes) + events_as_children(t.events),
            },
        ) == Ok::<XesElementView, ErrorView>(XesElementView::Trace(t)),
{
    lemma_names_differ();
    reveal_with_fuel(lookup, 2);
    let tag = seq![("scope"@, scope_text(g.scope))];
    assert(tag.drop_last() =~= Seq::empty());
    assert(lookup(tag, "scope"@) == Some(scope_text(g.scope)));
    lemma_children_are_sorted(g.attributes, Seq::empty());
    assert(as_children(g.attributes) + events_as_children(Seq::empty()) =~= as_children(
        g.attributes,
    ));
    lemma_children_are_sorted(e.attributes, Seq::empty());
    assert(as_children(e.attributes) + events_as_children(Seq::empty()) =~= as_children(
        e.attributes,
    ));
    lemma_children_are_sorted(t.attributes, t.events);
}

/// A `boolean` element with a key whose value is neither `true` nor `false`
/// is refused, and the error holds the value.
pub proof fn lemma_malformed_boolean_is_refused(frame: FrameView, value: Seq<char>)
    requires
        frame.element_name == "boolean"@,
        lookup(frame.attributes, "key"@) is Some,
        lookup(frame.attributes, "value"@) == Some(value),
        bool_value(value) is None,
    ensures
        element_of(frame) == Err::<XesElementView, ErrorView>(ErrorView::ParseBooleanError(value)),
{
    lemma_names_differ();
}

/// A document without any element is refused: where every token is text, a
/// comment, a declaration or the like, what is reported is that no root
/// element was found.
pub proof fn lemma_document_without_root_is_refused(tokens: Seq<XmlTokenView>, from: int)
    requires
        0 <= from <= tokens.len(),
        forall|i: int| 0 <= i < tokens.len() ==> #[trigger] tokens[i] == XmlTokenView::Other,
    ensures
        scan(Seq::empty(), tokens, from).2 == Err::<Option<ElementView>, ErrorView>(no_root()),
    decreases tokens.len() - from,
{
    reveal(accept);
    if from < tokens.len() {
        assert(tokens[from] == XmlTokenView::Other);
        lemma_document_without_root_is_refused(tokens, from + 1);
    }
}

/// Validates an extensible event stream beyond the order of its elements and
/// the form of its texts. Nothing is validated yet.
pub struct XesValidator {}

} // verus!
