use std::collections::VecDeque;

use promi::error::{DateErrorKind, FloatErrorKind, IntErrorKind};
use promi::stream::xes::{XesElement, XesIntermediate, XesReader, XesValidator, XesValue, XesWriter};
use promi::stream::xml::{XmlTag, XmlToken};
use promi::stream::{consume, Element, ResOpt, Stream, StreamSink};
use promi::{
    Attribute, AttributeType, Classifier, DateTime, Error, Event, Extension, Global, Log, Scope,
    Trace,
};

/// A stream that holds its elements in memory.
struct Buffer {
    elements: VecDeque<Element>,
}

impl Buffer {
    fn new() -> Self {
        Buffer { elements: VecDeque::new() }
    }
}

impl Stream for Buffer {
    fn next(&mut self) -> ResOpt {
        Ok(self.elements.pop_front())
    }
}

impl StreamSink for Buffer {
    fn on_open(&mut self) -> Result<(), Error> {
        Ok(())
    }

    fn on_element(&mut self, element: Element) -> Result<(), Error> {
        self.elements.push_back(element);
        Ok(())
    }

    fn on_close(&mut self) -> Result<(), Error> {
        Ok(())
    }

    fn on_error(&mut self, _error: Error) -> Result<(), Error> {
        Ok(())
    }
}

fn wrap(body: &str) -> Vec<u8> {
    format!(
        "<?xml version=\"1.0\" encoding=\"UTF-8\" ?>\n<log xes.version=\"1.0\" xes.features=\"nested-attributes\">\n{}</log>\n",
        body
    )
    .into_bytes()
}

const FULL: &str = "\t<extension name=\"Concept\" prefix=\"concept\" uri=\"http://www.xes-standard.org/concept.xesext\"/>
\t<global scope=\"trace\">
\t\t<string key=\"concept:name\" value=\"name\"/>
\t</global>
\t<global scope=\"event\">
\t\t<date key=\"time:timestamp\" value=\"1970-01-01T00:00:00+00:00\"/>
\t</global>
\t<classifier name=\"Activity\" scope=\"event\" keys=\"concept:name lifecycle:transition\"/>
\t<string key=\"concept:name\" value=\"example\"/>
\t<list key=\"parts\">
\t\t<values>
\t\t\t<int key=\"first\" value=\"+1\"/>
\t\t\t<list key=\"rest\">
\t\t\t\t<values>
\t\t\t\t\t<float key=\"second\" value=\"2.50e0\"/>
\t\t\t\t\t<boolean key=\"third\" value=\"false\"/>
\t\t\t\t</values>
\t\t\t</list>
\t\t</values>
\t</list>
\t<trace>
\t\t<string key=\"concept:name\" value=\"Case1\"/>
\t\t<event>
\t\t\t<string key=\"concept:name\" value=\"a\"/>
\t\t\t<date key=\"time:timestamp\" value=\"2011-04-13T14:02:31.199+02:00\"/>
\t\t\t<id key=\"identity\" value=\"6f2d3a\"/>
\t\t</event>
\t\t<event>
\t\t\t<string key=\"concept:name\" value=\"b\"/>
\t\t\t<date key=\"time:timestamp\" value=\"2011-04-13T14:02:32Z\"/>
\t\t</event>
\t</trace>
\t<event>
\t\t<int key=\"count\" value=\"-9223372036854775808\"/>
\t</event>
";

const WRITTEN: &str = "<?xml version=\"1.0\" encoding=\"UTF-8\"?>
<!-- This file has been generated with promi 0.1.0 -->
<!-- It conforms to the XML serialization of the XES standard (IEEE Std 1849-2016) -->
<!-- For log storage and management, see http://www.xes-standard.org. -->
<!-- promi is available at https://crates.io/crates/promi -->
<log xes.version=\"1849.2016\" xes.features=\"\">
\t<extension name=\"Concept\" prefix=\"concept\" uri=\"http://www.xes-standard.org/concept.xesext\"/>
\t<global scope=\"trace\">
\t\t<string key=\"concept:name\" value=\"name\"/>
\t</global>
\t<global scope=\"event\">
\t\t<date key=\"time:timestamp\" value=\"1970-01-01T00:00:00Z\"/>
\t</global>
\t<classifier name=\"Activity\" scope=\"event\" keys=\"concept:name lifecycle:transition\"/>
\t<string key=\"concept:name\" value=\"example\"/>
\t<list key=\"parts\">
\t\t<values>
\t\t\t<int key=\"first\" value=\"1\"/>
\t\t\t<list key=\"rest\">
\t\t\t\t<values>
\t\t\t\t\t<float key=\"second\" value=\"2.50e0\"/>
\t\t\t\t\t<boolean key=\"third\" value=\"false\"/>
\t\t\t\t</values>
\t\t\t</list>
\t\t</values>
\t</list>
\t<trace>
\t\t<string key=\"concept:name\" value=\"Case1\"/>
\t\t<event>
\t\t\t<string key=\"concept:name\" value=\"a\"/>
\t\t\t<date key=\"time:timestamp\" value=\"2011-04-13T14:02:31.199+02:00\"/>
\t\t\t<id key=\"identity\" value=\"6f2d3a\"/>
\t\t</event>
\t\t<event>
\t\t\t<string key=\"concept:name\" value=\"b\"/>
\t\t\t<date key=\"time:timestamp\" value=\"2011-04-13T14:02:32Z\"/>
\t\t</event>
\t</trace>
\t<event>
\t\t<int key=\"count\" value=\"-9223372036854775808\"/>
\t</event>
</log>";

fn read_all(document: Vec<u8>) -> Result<Vec<Element>, Error> {
    let mut reader = XesReader::new(document);
    let mut elements = Vec::new();
    loop {
        match reader.next()? {
            Some(e) => elements.push(e),
            None => return Ok(elements),
        }
    }
}

fn failure_of(document: Vec<u8>) -> Error {
    match read_all(document) {
        Err(e) => e,
        Ok(elements) => panic!("expected a failure, got {:?}", elements),
    }
}

fn correct() -> Vec<Vec<u8>> {
    vec![
        wrap(FULL),
        wrap(""),
        b"<log/>".to_vec(),
        b"<log><trace/><trace></trace><event/></log>".to_vec(),
        wrap("\t<string key='single' value='quotes'/>\n"),
        wrap("\t<!-- between --><string key=\"k\" value=\"v\"/><![CDATA[ignored]]>\n"),
        wrap("\t<string key=\"concept:name\" value=\"&lt;escaped&gt;\"/>\n"),
        wrap("\t<float key=\"a\" value=\"-.5\"/><float key=\"b\" value=\"1.\"/><float key=\"c\" value=\"+INF\"/><float key=\"d\" value=\"NaN\"/><float key=\"e\" value=\"6E-3\"/>\n"),
    ]
}

fn recoverable() -> Vec<Vec<u8>> {
    vec![
        wrap("\t<event>\n\t\t<extension name=\"a\" prefix=\"b\" uri=\"c\"/>\n\t\t<string key=\"k\" value=\"v\"/>\n\t</event>\n"),
        wrap("\t<trace>\n\t\t<trace/>\n\t\t<event><event/></event>\n\t</trace>\n"),
        wrap("\t<global scope=\"event\"><classifier name=\"n\" scope=\"event\" keys=\"k\"/></global>\n"),
        wrap("\t<string key=\"k\" value=\"v\" more=\"ignored\"><int key=\"inner\" value=\"1\"/></string>\n"),
        wrap("\t<list key=\"k\"><int key=\"outside\" value=\"1\"/><values><event/></values></list>\n"),
        b"<log><event/>".to_vec(),
        b"<log><event/></log><trailing/>".to_vec(),
    ]
}

fn non_parsing() -> Vec<Vec<u8>> {
    vec![
        wrap("\t<boolean key=\"synthetic\" value=\"maybe\"/>\n"),
        wrap("\t<trace>\n\t\t<event>\n\t\t</trace>\n\t</event>\n"),
        wrap("\t<footnote text=\"this is no element of a log\"/>\n"),
        b"<?xml version=\"1.0\" encoding=\"UTF-8\" ?>\n".to_vec(),
        Vec::new(),
        wrap("\t<global scope=\"log\"/>\n"),
        wrap("\t<global/>\n"),
        wrap("\t<int key=\"k\" value=\"1.5\"/>\n"),
        wrap("\t<float key=\"k\" value=\"one\"/>\n"),
        wrap("\t<date key=\"k\" value=\"20x1-04-13T14:02:31Z\"/>\n"),
        wrap("\t<string value=\"v\"/>\n"),
        wrap("\t<string key=\"k\"/>\n"),
        wrap("\t<extension name=\"n\" prefix=\"p\"/>\n"),
        wrap("\t<classifier name=\"n\" scope=\"event\"/>\n"),
        wrap("\t<string key=\"k\" key=\"again\" value=\"v\"/>\n"),
        wrap("\t<values/>\n"),
        wrap("\t<log/>\n"),
        wrap("\t<string key=\"k\" value=\"a & b\"/>\n"),
        wrap("\t<string key=\"k\" value=\"&unknown;\"/>\n"),
        b"<trace><event/></trace>".to_vec(),
        b"<event/>".to_vec(),
    ]
}

#[test]
fn test_deserialize_correct() {
    for document in correct() {
        let text = String::from_utf8_lossy(&document).into_owned();
        let mut reader = XesReader::from(document);
        let result = consume(&mut reader);
        assert!(result.is_ok(), "parsing {:?} unexpectedly failed: {:?}", text, result.err());
    }
}

#[test]
fn test_deserialize_recoverable() {
    for document in recoverable() {
        let text = String::from_utf8_lossy(&document).into_owned();
        let mut reader = XesReader::from(document);
        let result = consume(&mut reader);
        assert!(result.is_ok(), "parsing {:?} unexpectedly failed: {:?}", text, result.err());
    }
}

#[test]
fn test_deserialize_non_parsing() {
    for document in non_parsing() {
        let text = String::from_utf8_lossy(&document).into_owned();
        let mut reader = XesReader::from(document);
        let result = consume(&mut reader);
        assert!(result.is_err(), "parsing {:?} is expected to fail but didn't", text);
    }
}

#[test]
fn test_deserialize_non_validating() {
    let documents = vec![
        wrap("\t<event/>\n\t<extension name=\"a\" prefix=\"b\" uri=\"c\"/>\n"),
        wrap("\t<trace/>\n\t<global scope=\"event\"/>\n"),
        wrap("\t<string key=\"k\" value=\"v\"/>\n\t<classifier name=\"n\" scope=\"event\" keys=\"k\"/>\n"),
        wrap("\t<string key=\"not a name\" value=\"v\"/>\n"),
    ];
    for document in documents {
        let text = String::from_utf8_lossy(&document).into_owned();
        let mut reader = XesReader::from(document);
        let result = consume(&mut reader);
        assert!(result.is_ok(), "parsing {:?} unexpectedly failed: {:?}", text, result.err());
    }
}

fn serialize(buffer: &mut Buffer) -> Vec<u8> {
    let mut writer = XesWriter::new(Vec::new(), None, None);
    writer.consume(buffer).unwrap();
    writer.into_inner()
}

fn parse(document: Vec<u8>) -> Buffer {
    let mut buffer = Buffer::new();
    buffer.consume(&mut XesReader::from(document)).unwrap();
    buffer
}

#[test]
fn test_serialize_semantics() {
    let mut documents = correct();
    documents.extend(recoverable());
    for document in documents {
        let mut buffer = parse(document);
        let mut snapshots: Vec<Vec<u8>> = Vec::new();

        for _ in 0..2 {
            let bytes = serialize(&mut buffer);
            snapshots.push(bytes.clone());
            buffer = parse(bytes);
        }

        for (s1, s2) in snapshots.iter().zip(&snapshots[1..]) {
            assert_eq!(s1, s2)
        }
    }
}

#[test]
fn test_entities_are_resolved_on_reading_and_put_back_on_writing() {
    let document = wrap(
        "\t<string key=\"k\" value=\"a&amp;b &lt;c&gt; &quot;d&quot; &apos;e&apos; &#228;&#x4e2d; f;g\"/>\n",
    );
    let mut buffer = parse(document);
    match &buffer.elements[0] {
        Element::Attribute(a) => match &a.value {
            AttributeType::String(s) => assert_eq!(s, "a&b <c> \"d\" 'e' \u{e4}\u{4e2d} f;g"),
            other => panic!("expected a string, got {:?}", other),
        },
        other => panic!("expected an attribute, got {:?}", other),
    }
    let first = serialize(&mut buffer);
    let written = String::from_utf8(first.clone()).unwrap();
    assert!(written.contains(
        "<string key=\"k\" value=\"a&amp;b &lt;c&gt; &quot;d&quot; &apos;e&apos; \u{e4}\u{4e2d} f;g\"/>"
    ));
    let mut again = parse(first.clone());
    assert_eq!(serialize(&mut again), first);
}

#[test]
fn test_round_trip_of_every_character_that_markup_escapes() {
    let values = ["&", "<", ">", "'", "\"", "&amp;", "&&", "a&b;c", ";&;", "&#38;", "x<y>z&\"'"];
    for value in values.iter() {
        let mut first = Buffer::new();
        first.elements.push_back(Element::Attribute(Attribute {
            key: String::from("k"),
            value: AttributeType::String(String::from(*value)),
        }));
        first.elements.push_back(Element::Extension(Extension {
            name: String::from("n"),
            prefix: String::from("p"),
            uri: String::from(*value).replace('<', "").replace('>', "").replace('"', ""),
        }));
        let written = serialize(&mut first);
        let mut read = parse(written.clone());
        match &read.elements[0] {
            Element::Attribute(a) => match &a.value {
                AttributeType::String(s) => assert_eq!(s, value),
                other => panic!("expected a string, got {:?}", other),
            },
            other => panic!("expected an attribute, got {:?}", other),
        }
        assert_eq!(serialize(&mut read), written, "{:?}", value);
    }
}

#[test]
fn test_serialize_exact_bytes() {
    let mut buffer = parse(wrap(FULL));
    let mut writer = XesWriter::new(Vec::new(), None, None);
    writer.consume(&mut buffer).unwrap();
    assert_eq!(writer.bytes_written(), WRITTEN.len());
    assert_eq!(writer.inner().len(), WRITTEN.len());
    assert_eq!(String::from_utf8(writer.into_inner()).unwrap(), WRITTEN);
}

#[test]
fn test_serialize_continues_given_bytes_with_given_indentation() {
    let mut writer = XesWriter::new(b"kept".to_vec(), Some(b' '), Some(2));
    writer.on_open().unwrap();
    let before = writer.bytes_written();
    writer
        .on_element(Element::Event(Event {
            attributes: vec![
                Attribute { key: String::from("a"), value: AttributeType::Boolean(true) },
                Attribute { key: String::from("b"), value: AttributeType::List(Vec::new()) },
                Attribute {
                    key: String::from("c"),
                    value: AttributeType::String(String::from("<'\">&")),
                },
            ],
        }))
        .unwrap();
    let expected = "\n  <event>\n    <boolean key=\"a\" value=\"true\"/>\n    <list key=\"b\">\n      <values>\n      </values>\n    </list>\n    <string key=\"c\" value=\"&lt;&apos;&quot;&gt;&amp;\"/>\n  </event>";
    assert_eq!(writer.bytes_written() - before, expected.len());
    writer.on_error(Error::StreamError(String::from("nothing is written for this"))).unwrap();
    writer.on_close().unwrap();
    let written = String::from_utf8(writer.into_inner()).unwrap();
    assert!(written.starts_with("kept<?xml version=\"1.0\" encoding=\"UTF-8\"?>\n<!-- This"));
    assert!(written.ends_with(&format!("xes.features=\"\">{}\n</log>", expected)));
}

#[test]
fn test_serialize_refuses_malformed_names() {
    let cases: Vec<(Element, &str)> = vec![
        (
            Element::Attribute(Attribute {
                key: String::from("not a name"),
                value: AttributeType::Int(1),
            }),
            "\"not a name\" is no valid Name",
        ),
        (
            Element::Attribute(Attribute { key: String::new(), value: AttributeType::List(Vec::new()) }),
            "\"\" is no valid Name",
        ),
        (
            Element::Extension(Extension {
                name: String::from("with:colon"),
                prefix: String::from("p"),
                uri: String::from("u"),
            }),
            "\"with:colon\" is no valid NCName",
        ),
        (
            Element::Extension(Extension {
                name: String::from("n"),
                prefix: String::from("1p"),
                uri: String::from("u"),
            }),
            "\"1p\" is no valid NCName",
        ),
        (
            Element::Extension(Extension {
                name: String::from("n"),
                prefix: String::from("p"),
                uri: String::from("not a uri"),
            }),
            "\"not a uri\" is no valid anyURI",
        ),
        (
            Element::Classifier(Classifier {
                name: String::from("-n"),
                scope: Scope::Trace,
                keys: String::from("k"),
            }),
            "\"-n\" is no valid NCName",
        ),
        (
            Element::Classifier(Classifier {
                name: String::from("n"),
                scope: Scope::Trace,
                keys: String::from("two  spaces"),
            }),
            "\"two  spaces\" is no valid token",
        ),
        (
            Element::Trace(Trace {
                attributes: Vec::new(),
                events: vec![Event {
                    attributes: vec![Attribute {
                        key: String::from("<"),
                        value: AttributeType::Id(String::from("x")),
                    }],
                }],
            }),
            "\"<\" is no valid Name",
        ),
    ];
    for (element, message) in cases {
        let mut writer = XesWriter::new(Vec::new(), None, None);
        writer.on_open().unwrap();
        let before = writer.bytes_written();
        match writer.on_element(element) {
            Err(Error::ValidationError(m)) => assert_eq!(m, message),
            other => panic!("expected a validation error, got {:?}", other),
        }
        assert_eq!(writer.bytes_written(), before);
    }
}

#[test]
fn test_serialize_refuses_unbalanced_and_impossible() {
    let mut writer = XesWriter::new(Vec::new(), None, None);
    match writer.on_close() {
        Err(Error::XesError(m)) => assert_eq!(m, "End tag without start tag"),
        other => panic!("expected an error, got {:?}", other),
    }

    let mut writer = XesWriter::new(Vec::new(), None, Some(usize::MAX));
    match writer.on_open() {
        Err(Error::XesError(m)) => assert_eq!(m, "Markup is nested too deep"),
        other => panic!("expected an error, got {:?}", other),
    }

    let mut writer = XesWriter::new(Vec::new(), None, None);
    let never = Attribute {
        key: String::from("k"),
        value: AttributeType::Date(DateTime { secs: i64::MAX, nanos: 0, offset: 0 }),
    };
    match writer.on_element(Element::Attribute(never)) {
        Err(Error::XesError(m)) => assert_eq!(m, "Date is out of range"),
        other => panic!("expected an error, got {:?}", other),
    }
}

#[test]
fn test_reader_yields_typed_elements() {
    let elements = read_all(wrap(FULL)).unwrap();
    assert_eq!(elements.len(), 8);
    match &elements[0] {
        Element::Extension(x) => {
            assert_eq!(x.name, "Concept");
            assert_eq!(x.prefix, "concept");
            assert_eq!(x.uri, "http://www.xes-standard.org/concept.xesext");
        }
        other => panic!("expected an extension, got {:?}", other),
    }
    match &elements[1] {
        Element::Global(g) => {
            assert_eq!(g.scope, Scope::Trace);
            assert_eq!(g.attributes.len(), 1);
        }
        other => panic!("expected a global, got {:?}", other),
    }
    match &elements[2] {
        Element::Global(g) => {
            assert_eq!(g.scope, Scope::Event);
            assert!(matches!(
                g.attributes[0].value,
                AttributeType::Date(DateTime { secs: 0, nanos: 0, offset: 0 })
            ));
        }
        other => panic!("expected a global, got {:?}", other),
    }
    match &elements[3] {
        Element::Classifier(c) => {
            assert_eq!(c.name, "Activity");
            assert_eq!(c.scope, Scope::Event);
            assert_eq!(c.keys, "concept:name lifecycle:transition");
        }
        other => panic!("expected a classifier, got {:?}", other),
    }
    match &elements[5] {
        Element::Attribute(Attribute { key, value: AttributeType::List(members) }) => {
            assert_eq!(key, "parts");
            assert_eq!(members.len(), 2);
            assert_eq!(members[0].key, "first");
            assert!(matches!(members[0].value, AttributeType::Int(1)));
            match &members[1].value {
                AttributeType::List(inner) => {
                    assert_eq!(inner.len(), 2);
                    match &inner[0].value {
                        AttributeType::Float(text) => assert_eq!(text, "2.50e0"),
                        other => panic!("expected a float, got {:?}", other),
                    }
                    assert!(matches!(inner[1].value, AttributeType::Boolean(false)));
                }
                other => panic!("expected a list, got {:?}", other),
            }
        }
        other => panic!("expected a list, got {:?}", other),
    }
    match &elements[6] {
        Element::Trace(t) => {
            assert_eq!(t.attributes.len(), 1);
            assert_eq!(t.events.len(), 2);
            assert_eq!(t.events[0].attributes.len(), 3);
            assert!(matches!(
                t.events[0].attributes[1].value,
                AttributeType::Date(DateTime { secs: 1302696151, nanos: 199000000, offset: 7200 })
            ));
            match &t.events[0].attributes[2].value {
                AttributeType::Id(id) => assert_eq!(id, "6f2d3a"),
                other => panic!("expected an id, got {:?}", other),
            }
        }
        other => panic!("expected a trace, got {:?}", other),
    }
    match &elements[7] {
        Element::Event(e) => assert!(matches!(e.attributes[0].value, AttributeType::Int(i64::MIN))),
        other => panic!("expected an event, got {:?}", other),
    }
}

#[test]
fn test_reader_passes_over_misplaced_children() {
    let elements = read_all(recoverable()[0].clone()).unwrap();
    match &elements[0] {
        Element::Event(e) => {
            assert_eq!(e.attributes.len(), 1);
            assert_eq!(e.attributes[0].key, "k");
        }
        other => panic!("expected an event, got {:?}", other),
    }
    let elements = read_all(recoverable()[4].clone()).unwrap();
    assert!(matches!(
        &elements[0],
        Element::Attribute(Attribute { value: AttributeType::List(members), .. }) if members.is_empty()
    ));
}

#[test]
fn test_reader_errors() {
    match failure_of(non_parsing()[0].clone()) {
        Error::ParseBooleanError(text) => assert_eq!(text, "maybe"),
        other => panic!("expected a boolean error, got {:?}", other),
    }
    match failure_of(non_parsing()[1].clone()) {
        Error::XesError(m) => {
            assert!(m.starts_with("Error at position "), "{}", m);
            assert!(m.contains("EndEventMismatch"), "{}", m);
        }
        other => panic!("expected an XML error, got {:?}", other),
    }
    match failure_of(non_parsing()[2].clone()) {
        Error::XesError(m) => assert_eq!(m, "unexpected XES element: \"footnote\""),
        other => panic!("expected an error, got {:?}", other),
    }
    for i in [3usize, 4, 19, 20] {
        match failure_of(non_parsing()[i].clone()) {
            Error::XesError(m) => assert_eq!(m, "No root element found"),
            other => panic!("expected an error, got {:?}", other),
        }
    }
    match failure_of(non_parsing()[5].clone()) {
        Error::XesError(m) => assert_eq!(m, "invalid scope: \"log\""),
        other => panic!("expected an error, got {:?}", other),
    }
    match failure_of(non_parsing()[6].clone()) {
        Error::KeyError(m) => assert_eq!(m, "missing \"scope\" attribute in \"global\""),
        other => panic!("expected a key error, got {:?}", other),
    }
    assert!(matches!(
        failure_of(non_parsing()[7].clone()),
        Error::ParseIntError(IntErrorKind::InvalidDigit)
    ));
    assert!(matches!(
        failure_of(non_parsing()[8].clone()),
        Error::ParseFloatError(FloatErrorKind::Invalid)
    ));
    assert!(matches!(
        failure_of(non_parsing()[9].clone()),
        Error::ParseDateTimeError(DateErrorKind::Invalid)
    ));
    match failure_of(non_parsing()[10].clone()) {
        Error::KeyError(m) => assert_eq!(m, "missing \"key\" attribute in \"string\""),
        other => panic!("expected a key error, got {:?}", other),
    }
    match failure_of(non_parsing()[11].clone()) {
        Error::KeyError(m) => assert_eq!(m, "missing \"value\" attribute in \"string\""),
        other => panic!("expected a key error, got {:?}", other),
    }
    match failure_of(non_parsing()[12].clone()) {
        Error::KeyError(m) => assert_eq!(m, "missing \"uri\" attribute in \"extension\""),
        other => panic!("expected a key error, got {:?}", other),
    }
    match failure_of(non_parsing()[13].clone()) {
        Error::KeyError(m) => assert_eq!(m, "missing \"keys\" attribute in \"classifier\""),
        other => panic!("expected a key error, got {:?}", other),
    }
    match failure_of(non_parsing()[14].clone()) {
        Error::XMLError(m) => assert!(m.contains("DuplicatedAttribute"), "{}", m),
        other => panic!("expected an XML error, got {:?}", other),
    }
    match failure_of(non_parsing()[15].clone()) {
        Error::XesError(m) => assert_eq!(m, "XES element is not supported for streaming: values"),
        other => panic!("expected an error, got {:?}", other),
    }
    match failure_of(non_parsing()[16].clone()) {
        Error::XesError(m) => assert_eq!(m, "XES element is not supported for streaming: log"),
        other => panic!("expected an error, got {:?}", other),
    }
    match failure_of(non_parsing()[17].clone()) {
        Error::XMLError(m) => assert!(m.contains("UnterminatedEntity"), "{}", m),
        other => panic!("expected an XML error, got {:?}", other),
    }
    match failure_of(non_parsing()[18].clone()) {
        Error::XMLError(m) => assert!(m.contains("UnrecognizedSymbol"), "{}", m),
        other => panic!("expected an XML error, got {:?}", other),
    }
    let mut bad = b"<log><string key=\"k\" value=\"".to_vec();
    bad.extend_from_slice(&[0xff, 0xfe]);
    bad.extend_from_slice(b"\"/></log>");
    match failure_of(bad) {
        Error::FromUtf8Error(m) => assert!(m.contains("FromUtf8Error"), "{}", m),
        other => panic!("expected an encoding error, got {:?}", other),
    }
}

#[test]
fn test_reader_reports_position_of_malformed_markup() {
    let document = b"<log><!oops></log>".to_vec();
    match failure_of(document) {
        Error::XesError(m) => assert_eq!(m, "Error at position 7: UnexpectedBang"),
        other => panic!("expected an error, got {:?}", other),
    }
}

fn tag(content: &str, name_len: usize) -> XmlTag {
    XmlTag { content: content.as_bytes().to_vec(), name_len }
}

#[test]
fn test_accept_takes_tokens_one_by_one() {
    let mut reader = XesReader::new(Vec::new());
    assert!(reader.accept(XmlToken::Other).is_none());
    assert!(reader.accept(XmlToken::Start(tag("log xes.version=\"1.0\"", 3))).is_none());
    assert!(reader.accept(XmlToken::Start(tag("trace", 5))).is_none());
    assert!(reader.accept(XmlToken::Empty(tag("string key=\"k\" value=\"v\"", 6))).is_none());
    assert!(reader.accept(XmlToken::Start(tag("event", 5))).is_none());
    assert!(reader.accept(XmlToken::End).is_none());
    match reader.accept(XmlToken::End) {
        Some(Ok(Some(Element::Trace(t)))) => {
            assert_eq!(t.attributes.len(), 1);
            assert_eq!(t.events.len(), 1);
        }
        other => panic!("expected a trace, got {:?}", other),
    }
    assert!(matches!(reader.accept(XmlToken::Eof), Some(Ok(None))));
    assert!(matches!(reader.accept(XmlToken::End), Some(Ok(None))));
    match reader.accept(XmlToken::End) {
        Some(Err(Error::XesError(m))) => assert_eq!(m, "Unexpected end tag"),
        other => panic!("expected an error, got {:?}", other),
    }
    match reader.accept(XmlToken::Error { position: 1234567890, detail: String::from("Detail") }) {
        Some(Err(Error::XesError(m))) => assert_eq!(m, "Error at position 1234567890: Detail"),
        other => panic!("expected an error, got {:?}", other),
    }
    match reader.accept(XmlToken::Eof) {
        Some(Err(Error::XesError(m))) => assert_eq!(m, "No root element found"),
        other => panic!("expected an error, got {:?}", other),
    }
    match reader.accept(XmlToken::Start(tag("trace", 5))) {
        Some(Err(Error::XesError(m))) => assert_eq!(m, "No root element found"),
        other => panic!("expected an error, got {:?}", other),
    }
}

#[test]
fn test_intermediate() {
    let mut frame =
        XesIntermediate::from_event(tag("event first=\"1\" second='2' first2=\"3\"", 5)).unwrap();
    assert_eq!(frame.element_name, "event");
    assert_eq!(frame.attributes.len(), 3);
    assert_eq!(frame.get_attr("second").unwrap(), "2");
    frame.attributes.push((String::from("first"), String::from("last write wins")));
    assert_eq!(frame.get_attr("first").unwrap(), "last write wins");
    match frame.get_attr("third") {
        Err(Error::KeyError(m)) => assert_eq!(m, "missing \"third\" attribute in \"event\""),
        other => panic!("expected a key error, got {:?}", other),
    }
    frame.add_element(XesElement::Attribute(Attribute {
        key: String::from("k"),
        value: AttributeType::Int(7),
    }));
    frame.add_element(XesElement::Event(Event { attributes: Vec::new() }));
    assert_eq!(frame.elements.len(), 2);
    match XesElement::try_from(frame) {
        Ok(XesElement::Event(e)) => assert_eq!(e.attributes.len(), 1),
        other => panic!("expected an event, got {:?}", other),
    }

    // a name that is longer than the tag is the whole tag
    let frame = XesIntermediate::from_event(tag("log", 7)).unwrap();
    assert_eq!(frame.element_name, "log");
    assert!(frame.attributes.is_empty());

    match XesIntermediate::from_event(tag("event a=\"1\" b c", 5)) {
        Err(Error::XMLError(m)) => assert!(m.contains("NoEqAfterName"), "{}", m),
        other => panic!("expected an XML error, got {:?}", other),
    }
}

fn frame(name: &str, attributes: &[(&str, &str)], elements: Vec<XesElement>) -> XesIntermediate {
    XesIntermediate {
        element_name: String::from(name),
        attributes: attributes.iter().map(|(k, v)| (String::from(*k), String::from(*v))).collect(),
        elements,
    }
}

fn attribute(key: &str) -> XesElement {
    XesElement::Attribute(Attribute { key: String::from(key), value: AttributeType::Boolean(true) })
}

fn event() -> XesElement {
    XesElement::Event(Event { attributes: Vec::new() })
}

fn all_kinds() -> Vec<XesElement> {
    vec![
        event(),
        attribute("a"),
        XesElement::Value(XesValue {
            attributes: vec![Attribute { key: String::from("v"), value: AttributeType::Int(1) }],
        }),
        XesElement::Trace(Trace { attributes: Vec::new(), events: Vec::new() }),
        XesElement::Extension(Extension {
            name: String::from("n"),
            prefix: String::from("p"),
            uri: String::from("u"),
        }),
        attribute("b"),
        XesElement::Global(Global { scope: Scope::Event, attributes: Vec::new() }),
        XesElement::Classifier(Classifier {
            name: String::from("n"),
            scope: Scope::Event,
            keys: String::from("k"),
        }),
        XesElement::Value(XesValue {
            attributes: vec![
                Attribute { key: String::from("w"), value: AttributeType::Int(2) },
                Attribute { key: String::from("x"), value: AttributeType::Int(3) },
            ],
        }),
        event(),
        XesElement::Log(Log {
            extensions: Vec::new(),
            globals: Vec::new(),
            classifiers: Vec::new(),
            attributes: Vec::new(),
            traces: Vec::new(),
            events: Vec::new(),
        }),
    ]
}

fn keys(attributes: &[Attribute]) -> Vec<&str> {
    attributes.iter().map(|a| a.key.as_str()).collect()
}

#[test]
fn test_conversions_sort_children_by_kind() {
    let log = Log::try_from(frame("log", &[], all_kinds())).unwrap();
    assert_eq!(keys(&log.attributes), ["a", "b"]);
    assert_eq!(
        (log.extensions.len(), log.globals.len(), log.classifiers.len()),
        (1, 1, 1)
    );
    assert_eq!((log.traces.len(), log.events.len()), (1, 2));

    let trace = Trace::try_from(frame("trace", &[], all_kinds())).unwrap();
    assert_eq!(keys(&trace.attributes), ["a", "b"]);
    assert_eq!(trace.events.len(), 2);

    let event = Event::try_from(frame("event", &[], all_kinds())).unwrap();
    assert_eq!(keys(&event.attributes), ["a", "b"]);

    let value = XesValue::try_from(frame("values", &[], all_kinds())).unwrap();
    assert_eq!(keys(&value.attributes), ["a", "b"]);

    let global = Global::try_from(frame("global", &[("scope", "trace")], all_kinds())).unwrap();
    assert_eq!(global.scope, Scope::Trace);
    assert_eq!(keys(&global.attributes), ["a", "b"]);

    let list = Attribute::try_from(frame("list", &[("key", "l")], all_kinds())).unwrap();
    assert_eq!(list.key, "l");
    match &list.value {
        AttributeType::List(members) => assert_eq!(keys(members), ["v", "w", "x"]),
        other => panic!("expected a list, got {:?}", other),
    }

    let classifier = Classifier::try_from(frame(
        "classifier",
        &[("keys", "k"), ("scope", "trace"), ("name", "n")],
        Vec::new(),
    ))
    .unwrap();
    assert_eq!((classifier.name.as_str(), classifier.keys.as_str()), ("n", "k"));
    assert_eq!(classifier.scope, Scope::Trace);

    let extension = Extension::try_from(frame(
        "extension",
        &[("uri", "u"), ("prefix", "p"), ("name", "n")],
        Vec::new(),
    ))
    .unwrap();
    assert_eq!(
        (extension.name.as_str(), extension.prefix.as_str(), extension.uri.as_str()),
        ("n", "p", "u")
    );

    assert_eq!(Scope::try_from(&frame("global", &[("scope", "event")], Vec::new())).unwrap(), Scope::Event);

    match AttributeType::try_from(frame("number", &[("key", "k"), ("value", "1")], Vec::new())) {
        Err(Error::KeyError(m)) => assert_eq!(m, "unknown attribute number"),
        other => panic!("expected a key error, got {:?}", other),
    }
    for (name, kind) in [
        ("string", "Attribute"),
        ("id", "Attribute"),
        ("values", "Value"),
        ("event", "Event"),
        ("trace", "Trace"),
        ("log", "Log"),
    ] {
        let element =
            XesElement::try_from(frame(name, &[("key", "k"), ("value", "v")], Vec::new())).unwrap();
        assert!(format!("{:?}", element).starts_with(kind), "{:?}", element);
    }
}

#[test]
fn test_texts_beyond_ascii_and_quotes() {
    let document = wrap("\t<string key='single' value='Gr\u{fc}\u{df}e \"\u{4e2d}\u{6587}\"'/>\n");
    let mut buffer = parse(document);
    match &buffer.elements[0] {
        Element::Attribute(a) => {
            assert_eq!(a.key, "single");
            match &a.value {
                AttributeType::String(s) => assert_eq!(s, "Gr\u{fc}\u{df}e \"\u{4e2d}\u{6587}\""),
                other => panic!("expected a string, got {:?}", other),
            }
        }
        other => panic!("expected an attribute, got {:?}", other),
    }
    let written = String::from_utf8(serialize(&mut buffer)).unwrap();
    assert!(written.contains(
        "\n\t<string key=\"single\" value=\"Gr\u{fc}\u{df}e &quot;\u{4e2d}\u{6587}&quot;\"/>\n"
    ));
}

#[test]
fn test_serialize_escapes_every_value() {
    let mut writer = XesWriter::new(Vec::new(), Some(b'.'), Some(0));
    writer
        .on_element(Element::Extension(Extension {
            name: String::from("n"),
            prefix: String::from("p"),
            uri: String::from("http://x?a=1&b='2'"),
        }))
        .unwrap();
    writer
        .on_element(Element::Classifier(Classifier {
            name: String::from("n"),
            scope: Scope::Trace,
            keys: String::from("<k> \"l\""),
        }))
        .unwrap();
    writer
        .on_element(Element::Global(Global { scope: Scope::Trace, attributes: Vec::new() }))
        .unwrap();
    let expected = "<extension name=\"n\" prefix=\"p\" uri=\"http://x?a=1&amp;b=&apos;2&apos;\"/>\n<classifier name=\"n\" scope=\"trace\" keys=\"&lt;k&gt; &quot;l&quot;\"/>\n<global scope=\"trace\">\n</global>";
    assert_eq!(writer.bytes_written(), expected.len());
    assert_eq!(String::from_utf8(writer.into_inner()).unwrap(), expected);
}

#[test]
fn test_reader_takes_deep_nesting() {
    let depth = 2000;
    let mut body = String::new();
    for i in 0..depth {
        body.push_str(&format!("<list key=\"level{}\"><values>", i));
    }
    body.push_str("<int key=\"innermost\" value=\"1\"/>");
    for _ in 0..depth {
        body.push_str("</values></list>");
    }
    let elements = read_all(wrap(&body)).unwrap();
    assert_eq!(elements.len(), 1);
    let mut levels = 0;
    let mut current = match &elements[0] {
        Element::Attribute(a) => a,
        other => panic!("expected an attribute, got {:?}", other),
    };
    while let AttributeType::List(members) = &current.value {
        assert_eq!(current.key, format!("level{}", levels));
        assert_eq!(members.len(), 1);
        current = &members[0];
        levels += 1;
    }
    assert_eq!(levels, depth);
    assert_eq!(current.key, "innermost");
}

#[test]
fn test_validator_is_a_placeholder() {
    let _validator = XesValidator {};
}
