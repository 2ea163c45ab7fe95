use std::collections::VecDeque;

use promi::stream::xes::XesReader;
use promi::stream::{
    consume, Duplicator, Element, Handler, Meta, Observer, ResOpt, Stream, StreamSink, StreamState,
};
use promi::{Error, Event, Trace};

/// A stream that holds its elements in memory.
struct Buffer {
    elements: VecDeque<Element>,
}

impl Buffer {
    fn new() -> Self {
        Buffer { elements: VecDeque::new() }
    }

    fn len(&self) -> usize {
        self.elements.len()
    }
}

impl Stream for Buffer {
    fn next(&mut self) -> ResOpt {
        Ok(self.elements.pop_front())
    }
}

impl StreamSink for Buffer {
    fn on_open(&mut self) -> Result<(), Error> {
        Ok(())
    }

    fn on_element(&mut self, element: Element) -> Result<(), Error> {
        self.elements.push_back(element);
        Ok(())
    }

    fn on_close(&mut self) -> Result<(), Error> {
        Ok(())
    }

    fn on_error(&mut self, _error: Error) -> Result<(), Error> {
        Ok(())
    }
}

const OPENING: &str = "<?xml version=\"1.0\" encoding=\"UTF-8\" ?>\n<!-- an example log -->\n<log xes.version=\"1.0\" xes.features=\"nested-attributes\">\n";

const EXTENSIONS: [&str; 3] = [
    "\t<extension name=\"Concept\" prefix=\"concept\" uri=\"http://www.xes-standard.org/concept.xesext\"/>\n",
    "\t<extension name=\"Time\" prefix=\"time\" uri=\"http://www.xes-standard.org/time.xesext\"/>\n",
    "\t<extension name=\"Organizational\" prefix=\"org\" uri=\"http://www.xes-standard.org/org.xesext\"/>\n",
];

const GLOBALS: [&str; 2] = [
    "\t<global scope=\"trace\">\n\t\t<string key=\"concept:name\" value=\"name\"/>\n\t</global>\n",
    "\t<global scope=\"event\">\n\t\t<string key=\"concept:name\" value=\"name\"/>\n\t\t<date key=\"time:timestamp\" value=\"2011-04-13T14:02:31.199+02:00\"/>\n\t</global>\n",
];

const CLASSIFIERS: [&str; 3] = [
    "\t<classifier name=\"Activity\" scope=\"event\" keys=\"concept:name\"/>\n",
    "\t<classifier name=\"Resource\" scope=\"event\" keys=\"org:resource\"/>\n",
    "\t<classifier name=\"Both\" scope=\"event\" keys=\"concept:name org:resource\"/>\n",
];

const ATTRIBUTES: [&str; 5] = [
    "\t<string key=\"concept:name\" value=\"example\"/>\n",
    "\t<int key=\"revision\" value=\"-7\"/>\n",
    "\t<float key=\"cost\" value=\"12.50\"/>\n",
    "\t<boolean key=\"synthetic\" value=\"true\"/>\n",
    "\t<id key=\"identity\" value=\"6f2d3a\"/>\n",
];

/// The first `count` of the thirteen meta elements of the example logs.
fn meta(count: usize) -> String {
    let mut all: Vec<&str> = Vec::new();
    all.extend(EXTENSIONS.iter());
    all.extend(GLOBALS.iter());
    all.extend(CLASSIFIERS.iter());
    all.extend(ATTRIBUTES.iter());
    all[..count].concat()
}

fn event(activity: char) -> String {
    format!(
        "\t\t<event>\n\t\t\t<string key=\"concept:name\" value=\"{}\"/>\n\t\t</event>\n",
        activity
    )
}

fn trace(number: usize, activities: &str) -> String {
    let mut s = String::new();
    s.push_str("\t<trace>\n");
    s.push_str(&format!("\t\t<string key=\"concept:name\" value=\"Case{}\"/>\n", number));
    for a in activities.chars() {
        s.push_str(&event(a));
    }
    s.push_str("\t</trace>\n");
    s
}

fn log(traces: &[&str]) -> Vec<u8> {
    let mut s = String::from(OPENING);
    s.push_str(&meta(13));
    for (i, t) in traces.iter().enumerate() {
        s.push_str(&trace(i + 1, t));
    }
    s.push_str("</log>\n");
    s.into_bytes()
}

fn l1() -> Vec<u8> {
    log(&["aed", "abcd", "abcd", "acbd", "abcd", "acbd"])
}

fn l2() -> Vec<u8> {
    log(&[
        "abcd", "abcefbcd", "abcd", "abcefbcd", "abcd", "abcefcbd", "acbefbcd", "acbd", "acbd",
        "acbd", "acbefbcd", "acbd", "acbefbcefcbd",
    ])
}

fn l3() -> Vec<u8> {
    log(&["abcdefbdceg", "abdceg", "abcdefbcdefbdceg", "abdceg"])
}

fn l4() -> Vec<u8> {
    let mut traces: Vec<&str> = Vec::new();
    for _ in 0..45 {
        traces.push("acd");
    }
    for _ in 0..42 {
        traces.push("bcd");
    }
    for _ in 0..38 {
        traces.push("ace");
    }
    for _ in 0..22 {
        traces.push("bce");
    }
    log(&traces)
}

fn l5() -> Vec<u8> {
    log(&[
        "abef", "abef", "abecdbf", "abecdbf", "abecdbf", "abcedbf", "abcedbf", "abcdebf",
        "abcdebf", "abcdebf", "abcdebf", "aebcdbf", "aebcdbf", "aebcdbf",
    ])
}

fn log_correct_attributes() -> Vec<u8> {
    let mut s = String::new();
    s.push_str("<?xml version=\"1.0\" encoding=\"UTF-8\" ?>\n");
    s.push_str("<log xes.version=\"1.0\" xes.features=\"nested-attributes\" openxes.version=\"1.0RC7\">\n");
    s.push_str("</log>\n");
    s.into_bytes()
}

fn event_correct_attributes() -> Vec<u8> {
    let mut s = String::from(OPENING);
    s.push_str(&meta(6));
    s.push_str(&trace(1, "ab"));
    s.push_str("\t<event>\n\t\t<string key=\"concept:name\" value=\"c\"/>\n\t\t<date key=\"time:timestamp\" value=\"2011-04-13T14:02:31.199+02:00\"/>\n\t</event>\n");
    s.push_str("\t<event>\n\t\t<list key=\"parts\">\n\t\t\t<values>\n\t\t\t\t<int key=\"first\" value=\"1\"/>\n\t\t\t\t<int key=\"second\" value=\"2\"/>\n\t\t\t</values>\n\t\t</list>\n\t</event>\n");
    s.push_str("</log>\n");
    s.into_bytes()
}

fn boolean_incorrect_value() -> Vec<u8> {
    let mut s = String::from(OPENING);
    s.push_str(&meta(5));
    s.push_str("\t<boolean key=\"synthetic\" value=\"maybe\"/>\n");
    s.push_str("</log>\n");
    s.into_bytes()
}

fn broken_xml() -> Vec<u8> {
    let mut s = String::from(OPENING);
    s.push_str(&meta(13));
    for i in 0..5 {
        s.push_str(&trace(i + 1, "abcd"));
    }
    s.push_str("\t<trace>\n\t\t<event>\n\t\t</trace>\n\t</event>\n");
    s.push_str("</log>\n");
    s.into_bytes()
}

fn element_incorrect() -> Vec<u8> {
    let mut s = String::from(OPENING);
    s.push_str(&meta(6));
    s.push_str("\t<footnote text=\"this is no element of a log\"/>\n");
    s.push_str("</log>\n");
    s.into_bytes()
}

fn no_log() -> Vec<u8> {
    String::from("<?xml version=\"1.0\" encoding=\"UTF-8\" ?>\n").into_bytes()
}

fn global_incorrect_scope() -> Vec<u8> {
    let mut s = String::from(OPENING);
    s.push_str(&meta(1));
    s.push_str("\t<global scope=\"log\">\n\t\t<string key=\"concept:name\" value=\"name\"/>\n\t</global>\n");
    s.push_str("</log>\n");
    s.into_bytes()
}

/// The element of the given kind, as it stands in a document.
fn sample(kind: &str) -> String {
    match kind {
        "extension" => String::from(EXTENSIONS[0]),
        "global" => String::from(GLOBALS[0]),
        "classifier" => String::from(CLASSIFIERS[0]),
        "attribute" => String::from(ATTRIBUTES[0]),
        "trace" => trace(1, "ab"),
        "event" => String::from("\t<event>\n\t\t<string key=\"concept:name\" value=\"c\"/>\n\t</event>\n"),
        other => panic!("no sample of {}", other),
    }
}

/// A log in which an element of the kind `early` stands behind one of the
/// kind `late`.
fn misplaced(early: &str, late: &str) -> Vec<u8> {
    let mut s = String::from(OPENING);
    s.push_str(&sample(late));
    s.push_str(&sample(early));
    s.push_str("</log>\n");
    s.into_bytes()
}

fn load(document: Vec<u8>) -> Buffer {
    let mut buffer = Buffer::new();
    let mut reader = XesReader::from(document);
    buffer.consume(&mut reader).unwrap();
    buffer
}

#[test]
fn test_consume() {
    let mut buffer = load(l1());

    assert_eq!(buffer.len(), 19);

    consume(&mut buffer).unwrap();

    assert_eq!(buffer.len(), 0);
}

#[derive(Debug)]
struct TestSink {
    ct_open: usize,
    ct_element: usize,
    ct_close: usize,
    ct_error: usize,
}

impl Default for TestSink {
    fn default() -> Self {
        TestSink { ct_open: 0, ct_element: 0, ct_close: 0, ct_error: 0 }
    }
}

impl StreamSink for TestSink {
    fn on_open(&mut self) -> Result<(), Error> {
        self.ct_open += 1;
        Ok(())
    }

    fn on_element(&mut self, _: Element) -> Result<(), Error> {
        self.ct_element += 1;
        Ok(())
    }

    fn on_close(&mut self) -> Result<(), Error> {
        self.ct_close += 1;
        Ok(())
    }

    fn on_error(&mut self, _: Error) -> Result<(), Error> {
        self.ct_error += 1;
        Ok(())
    }
}

impl TestSink {
    fn counts(&self) -> [usize; 4] {
        [self.ct_open, self.ct_element, self.ct_close, self.ct_error]
    }
}

fn _test_sink_duplicator(document: Vec<u8>, counts: &[usize; 4], expect_error: bool) {
    let reader = XesReader::from(document);
    let sink_1 = TestSink::default();
    let mut sink_2 = TestSink::default();
    let mut duplicator = Duplicator::new(reader, sink_1);

    assert_eq!(sink_2.consume(&mut duplicator).is_err(), expect_error);

    let sink_1 = duplicator.into_sink();

    assert_eq!(&sink_1.counts(), counts);
    assert_eq!(&sink_2.counts(), counts);
}

#[test]
fn test_sink_duplicator() {
    let param = [
        (l1(), [1, 19, 1, 0]),
        (l2(), [1, 26, 1, 0]),
        (l3(), [1, 17, 1, 0]),
        (l4(), [1, 160, 1, 0]),
        (l5(), [1, 27, 1, 0]),
        (log_correct_attributes(), [1, 0, 1, 0]),
        (event_correct_attributes(), [1, 9, 1, 0]),
    ];

    for (document, counts) in param.iter() {
        _test_sink_duplicator(document.clone(), counts, false);
    }

    let param = [
        (boolean_incorrect_value(), [1, 5, 0, 1]),
        (broken_xml(), [1, 18, 0, 1]),
        (element_incorrect(), [1, 6, 0, 1]),
        (no_log(), [1, 0, 0, 1]),
        (global_incorrect_scope(), [1, 1, 0, 1]),
    ];

    for (document, counts) in param.iter() {
        _test_sink_duplicator(document.clone(), counts, true);
    }
}

#[derive(Debug)]
struct TestHandler {
    filter: bool,
    ct_meta: usize,
    ct_trace: usize,
    ct_event: usize,
    ct_in_trace: usize,
}

impl Handler for TestHandler {
    fn meta(&mut self, _meta: &Meta) {
        self.ct_meta += 1;
    }

    fn trace(&mut self, trace: Trace, _meta: &Meta) -> Result<Option<Trace>, Error> {
        self.ct_trace += 1;

        if !self.filter || self.ct_trace % 2 == 0 {
            Ok(Some(trace))
        } else {
            Ok(None)
        }
    }

    fn event(&mut self, event: Event, _in_trace: bool, _meta: &Meta) -> Result<Option<Event>, Error> {
        self.ct_event += 1;

        if _in_trace {
            self.ct_in_trace += 1;
        }

        if !self.filter || self.ct_event % 2 == 0 {
            Ok(Some(event))
        } else {
            Ok(None)
        }
    }
}

impl TestHandler {
    fn new(filter: bool) -> Self {
        Self { filter, ct_meta: 0, ct_trace: 0, ct_event: 0, ct_in_trace: 0 }
    }

    fn counts(&self) -> [usize; 4] {
        [self.ct_meta, self.ct_trace, self.ct_event, self.ct_in_trace]
    }
}

fn _test_observer(document: Vec<u8>, counts: &[usize; 4], filter: bool) {
    let reader = XesReader::from(document);
    let mut observer = Observer::new(reader);

    observer.register(TestHandler::new(filter));
    observer.register(TestHandler::new(false));

    consume(&mut observer).unwrap();

    let handler_2 = observer.release().unwrap();
    let handler_1 = observer.release().unwrap();

    if !filter {
        assert_eq!(&handler_1.counts(), counts);
    }
    assert_eq!(&handler_2.counts(), counts);
}

#[test]
fn test_observer_handling() {
    let param = [
        (l1(), [1, 6, 23, 23]),
        (l2(), [1, 13, 80, 80]),
        (l3(), [1, 4, 39, 39]),
        (l4(), [1, 147, 441, 441]),
        (l5(), [1, 14, 92, 92]),
        (log_correct_attributes(), [0, 0, 0, 0]),
        (event_correct_attributes(), [1, 1, 4, 2]),
    ];

    for (document, counts) in param.iter() {
        _test_observer(document.clone(), counts, false)
    }
}

#[test]
fn test_observer_filtering() {
    let param = [
        (l1(), [1, 3, 6, 6]),
        (l2(), [1, 6, 18, 18]),
        (l3(), [1, 2, 6, 6]),
        (l4(), [1, 73, 109, 109]),
        (l5(), [1, 7, 23, 23]),
        (log_correct_attributes(), [0, 0, 0, 0]),
        (event_correct_attributes(), [1, 0, 1, 0]),
    ];

    for (document, counts) in param.iter() {
        _test_observer(document.clone(), counts, true)
    }
}

#[test]
fn test_observer_order_validation() {
    let names = [
        ("extension", "event"),
        ("extension", "classifier"),
        ("trace", "event"),
        ("global", "attribute"),
        ("extension", "trace"),
        ("global", "event"),
        ("classifier", "event"),
        ("extension", "attribute"),
        ("attribute", "event"),
        ("global", "classifier"),
        ("classifier", "attribute"),
        ("classifier", "trace"),
        ("attribute", "trace"),
        ("global", "trace"),
        ("extension", "global"),
    ];

    for (early, late) in names.iter() {
        let reader = XesReader::from(misplaced(early, late));
        let mut observer = Observer::new(reader);

        observer.register(TestHandler::new(false));

        assert!(
            consume(&mut observer).is_err(),
            "expected state error: {:?} behind {:?}",
            early,
            late
        )
    }
}

fn rank_of(kind: &str) -> StreamState {
    match kind {
        "extension" => StreamState::Extension,
        "global" => StreamState::Global,
        "classifier" => StreamState::Classifier,
        "attribute" => StreamState::Attribute,
        "trace" => StreamState::Trace,
        "event" => StreamState::Event,
        other => panic!("no state of {}", other),
    }
}

#[test]
fn test_order_violation_carries_both_states() {
    let reader = XesReader::from(misplaced("global", "trace"));
    let mut observer: Observer<XesReader, TestHandler> = Observer::new(reader);

    assert!(matches!(observer.next(), Ok(Some(Element::Trace(_)))));
    match observer.next() {
        Err(Error::StateError { got, current }) => {
            assert_eq!(got, rank_of("global"));
            assert_eq!(current, rank_of("trace"));
        }
        other => panic!("expected a state error, got {:?}", other),
    }
}

#[test]
fn test_meta_accepts_every_order_that_never_decreases() {
    let kinds = ["extension", "global", "classifier", "attribute", "trace", "event"];
    for (i, first) in kinds.iter().enumerate() {
        for (j, second) in kinds.iter().enumerate() {
            let mut s = String::from(OPENING);
            s.push_str(&sample(first));
            s.push_str(&sample(second));
            s.push_str("</log>\n");
            let mut observer: Observer<XesReader, TestHandler> =
                Observer::new(XesReader::from(s.into_bytes()));
            let result = consume(&mut observer);
            assert_eq!(result.is_ok(), i <= j, "{} then {}", first, second);
        }
    }
}

#[test]
fn test_meta_update_reports_transitions() {
    let mut buffer = load(event_correct_attributes());
    let mut meta = Meta::default();
    assert_eq!(meta.state(), StreamState::Extension);
    let mut transitions = Vec::new();
    while let Some(element) = buffer.next().unwrap() {
        transitions.push(meta.update(&element).unwrap());
    }
    assert_eq!(transitions.len(), 9);
    assert_eq!(transitions[0], (StreamState::Extension, StreamState::Extension));
    assert_eq!(transitions[3], (StreamState::Extension, StreamState::Global));
    assert_eq!(transitions[5], (StreamState::Global, StreamState::Classifier));
    assert_eq!(transitions[6], (StreamState::Classifier, StreamState::Trace));
    assert_eq!(transitions[7], (StreamState::Trace, StreamState::Event));
    assert_eq!(transitions[8], (StreamState::Event, StreamState::Event));
    assert_eq!(meta.state(), StreamState::Event);
    assert_eq!(meta.extensions().len(), 3);
    assert_eq!(meta.globals().len(), 2);
    assert_eq!(meta.classifiers().len(), 1);
    assert_eq!(meta.attributes().len(), 0);
    assert_eq!(meta.extensions()[1].prefix, "time");
}

#[test]
fn test_meta_keeps_refused_element_and_state() {
    let mut buffer = load(misplaced("extension", "classifier"));
    let mut meta = Meta::default();
    let classifier = buffer.next().unwrap().unwrap();
    let extension = buffer.next().unwrap().unwrap();
    assert!(meta.update(&classifier).is_ok());
    match meta.update(&extension) {
        Err(Error::StateError { got, current }) => {
            assert_eq!(got, StreamState::Extension);
            assert_eq!(current, StreamState::Classifier);
        }
        other => panic!("expected a state error, got {:?}", other),
    }
    assert_eq!(meta.state(), StreamState::Classifier);
    assert_eq!(meta.extensions().len(), 1);
}

#[test]
fn test_stream_state_order() {
    let states = [
        StreamState::Extension,
        StreamState::Global,
        StreamState::Classifier,
        StreamState::Attribute,
        StreamState::Trace,
        StreamState::Event,
    ];
    for (i, a) in states.iter().enumerate() {
        assert_eq!(a.position() as usize, i);
        for (j, b) in states.iter().enumerate() {
            assert_eq!(a < b, i < j);
            assert_eq!(a == b, i == j);
        }
    }
    assert_eq!(StreamState::Classifier.label(), "Classifier");
}

#[test]
fn test_exhausted_streams_stay_exhausted() {
    let mut reader = XesReader::from(log_correct_attributes());
    for _ in 0..3 {
        assert!(matches!(reader.next(), Ok(None)));
    }

    let mut duplicator = Duplicator::new(XesReader::from(l3()), TestSink::default());
    consume(&mut duplicator).unwrap();
    for _ in 0..3 {
        assert!(matches!(duplicator.next(), Ok(None)));
    }
    assert_eq!(duplicator.into_sink().counts(), [1, 17, 1, 0]);

    let mut observer: Observer<XesReader, TestHandler> = Observer::new(XesReader::from(l3()));
    consume(&mut observer).unwrap();
    for _ in 0..3 {
        assert!(matches!(observer.next(), Ok(None)));
    }
}

#[test]
fn test_drain_counts_every_element() {
    for (document, count) in [(l1(), 19), (l2(), 26), (l5(), 27)].iter() {
        let mut buffer = load(document.clone());
        assert_eq!(buffer.len(), *count);
        let mut sink = TestSink::default();
        sink.consume(&mut buffer).unwrap();
        assert_eq!(sink.counts(), [1, *count, 1, 0]);
        assert_eq!(buffer.len(), 0);
    }
}

#[test]
fn test_meta_callback_fires_once_or_never() {
    let mut only_meta = String::from(OPENING);
    only_meta.push_str(&meta(13));
    only_meta.push_str("</log>\n");
    let mut observer = Observer::new(XesReader::from(only_meta.into_bytes()));
    observer.register(TestHandler::new(false));
    consume(&mut observer).unwrap();
    assert_eq!(observer.release().unwrap().counts(), [0, 0, 0, 0]);

    let mut only_events = String::from(OPENING);
    only_events.push_str(&sample("event"));
    only_events.push_str(&sample("event"));
    only_events.push_str("</log>\n");
    let mut observer = Observer::new(XesReader::from(only_events.into_bytes()));
    observer.register(TestHandler::new(false));
    consume(&mut observer).unwrap();
    assert_eq!(observer.release().unwrap().counts(), [1, 0, 2, 0]);
}

/// Writes down the activity of every event that it is shown.
struct Recorder {
    seen: Vec<String>,
}

fn activity(event: &Event) -> String {
    match &event.attributes[0].value {
        promi::AttributeType::String(s) => s.clone(),
        other => panic!("no activity: {:?}", other),
    }
}

impl Handler for Recorder {
    fn meta(&mut self, _meta: &Meta) {}

    fn trace(&mut self, trace: Trace, _meta: &Meta) -> Result<Option<Trace>, Error> {
        Ok(Some(trace))
    }

    fn event(&mut self, event: Event, _in_trace: bool, _meta: &Meta) -> Result<Option<Event>, Error> {
        let a = activity(&event);
        self.seen.push(a.clone());
        if a == "c" {
            Ok(None)
        } else {
            Ok(Some(event))
        }
    }
}

#[test]
fn test_events_of_a_trace_keep_their_order() {
    let mut observer = Observer::new(XesReader::from(log(&["abcd"])));
    observer.register(Recorder { seen: Vec::new() });
    let mut kept: Vec<String> = Vec::new();
    while let Some(element) = observer.next().unwrap() {
        if let Element::Trace(t) = element {
            kept = t.events.iter().map(activity).collect();
        }
    }
    assert_eq!(kept, ["a", "b", "d"]);
    assert_eq!(observer.release().unwrap().seen, ["a", "b", "c", "d"]);
    assert!(observer.release().is_none());
}

/// Fails on the trace with the given number.
struct Failing {
    at: usize,
    traces: usize,
    events: usize,
}

impl Handler for Failing {
    fn meta(&mut self, _meta: &Meta) {}

    fn trace(&mut self, trace: Trace, _meta: &Meta) -> Result<Option<Trace>, Error> {
        self.traces += 1;
        if self.traces == self.at {
            Err(Error::StreamError(String::from("enough")))
        } else {
            Ok(Some(trace))
        }
    }

    fn event(&mut self, event: Event, _in_trace: bool, _meta: &Meta) -> Result<Option<Event>, Error> {
        self.events += 1;
        Ok(Some(event))
    }
}

#[test]
fn test_failure_of_a_handler_ends_the_traversal() {
    let mut observer = Observer::new(XesReader::from(l1()));
    observer.register(Failing { at: 2, traces: 0, events: 0 });
    observer.register(Failing { at: 0, traces: 0, events: 0 });
    match consume(&mut observer) {
        Err(Error::StreamError(m)) => assert_eq!(m, "enough"),
        other => panic!("expected the failure of the handler, got {:?}", other),
    }
    let second = observer.release().unwrap();
    let first = observer.release().unwrap();
    assert_eq!((first.traces, first.events), (2, 3));
    assert_eq!((second.traces, second.events), (1, 3));
}

/// Refuses every element.
struct Refusing {
    calls: Vec<&'static str>,
}

impl StreamSink for Refusing {
    fn on_open(&mut self) -> Result<(), Error> {
        self.calls.push("open");
        Ok(())
    }

    fn on_element(&mut self, _: Element) -> Result<(), Error> {
        self.calls.push("element");
        Err(Error::StreamError(String::from("full")))
    }

    fn on_close(&mut self) -> Result<(), Error> {
        self.calls.push("close");
        Ok(())
    }

    fn on_error(&mut self, _: Error) -> Result<(), Error> {
        self.calls.push("error");
        Ok(())
    }
}

#[test]
fn test_refusal_of_a_sink_ends_the_drain() {
    let mut buffer = load(l1());
    let mut sink = Refusing { calls: Vec::new() };
    match sink.consume(&mut buffer) {
        Err(Error::StreamError(m)) => assert_eq!(m, "full"),
        other => panic!("expected the refusal of the sink, got {:?}", other),
    }
    assert_eq!(sink.calls, ["open", "element"]);
    assert_eq!(buffer.len(), 18);

    let mut duplicator = Duplicator::new(load(l1()), Refusing { calls: Vec::new() });
    assert!(matches!(duplicator.next(), Err(Error::StreamError(_))));
    assert_eq!(duplicator.into_sink().calls, ["open", "element"]);
}

#[test]
fn test_duplicator_hands_on_what_it_pulled() {
    let mut duplicator = Duplicator::new(XesReader::from(event_correct_attributes()), Buffer::new());
    let mut direct = load(event_correct_attributes());
    loop {
        let copy = duplicator.next().unwrap();
        let original = direct.next().unwrap();
        assert_eq!(format!("{:?}", copy), format!("{:?}", original));
        if copy.is_none() {
            break;
        }
    }
    let mut sink = duplicator.into_sink();
    let mut direct = load(event_correct_attributes());
    assert_eq!(sink.len(), 9);
    while let Some(copy) = sink.next().unwrap() {
        let original = direct.next().unwrap().unwrap();
        assert_eq!(format!("{:?}", copy), format!("{:?}", original));
    }
}

#[test]
fn test_forward_tells_an_open_sink() {
    let mut duplicator = Duplicator::new(Buffer::new(), TestSink::default());
    duplicator.open_sink().unwrap();
    duplicator.open_sink().unwrap();
    assert!(matches!(duplicator.forward(Ok(None)), Ok(None)));
    let failure = duplicator.forward(Err(Error::XesError(String::from("broken"))));
    match failure {
        Err(Error::XesError(m)) => assert_eq!(m, "broken"),
        other => panic!("expected the error to be handed on, got {:?}", other),
    }
    assert_eq!(duplicator.into_sink().counts(), [1, 0, 1, 1]);
}

/// Refuses to be opened.
struct Closed {
    calls: Vec<&'static str>,
}

impl StreamSink for Closed {
    fn on_open(&mut self) -> Result<(), Error> {
        self.calls.push("open");
        Err(Error::StreamError(String::from("closed")))
    }

    fn on_element(&mut self, _: Element) -> Result<(), Error> {
        self.calls.push("element");
        Ok(())
    }

    fn on_close(&mut self) -> Result<(), Error> {
        self.calls.push("close");
        Ok(())
    }

    fn on_error(&mut self, _: Error) -> Result<(), Error> {
        self.calls.push("error");
        Ok(())
    }
}

#[test]
fn test_sink_that_refuses_to_open_costs_no_element() {
    let mut duplicator = Duplicator::new(load(l3()), Closed { calls: Vec::new() });
    match duplicator.next() {
        Err(Error::StreamError(m)) => assert_eq!(m, "closed"),
        other => panic!("expected the refusal of the sink, got {:?}", other),
    }
    // the sink is not opened again, and the first element is still there
    assert!(matches!(duplicator.next(), Ok(Some(Element::Extension(_)))));
    consume(&mut duplicator).unwrap();
    let sink = duplicator.into_sink();
    assert_eq!(sink.calls.len(), 19);
    assert_eq!(sink.calls[0], "open");
    for call in sink.calls[1..18].iter() {
        assert_eq!(*call, "element");
    }
    assert_eq!(sink.calls[18], "close");
}

#[test]
fn test_stream_is_pulled_only_after_the_sink_is_open() {
    let mut duplicator = Duplicator::new(load(l3()), Closed { calls: Vec::new() });
    assert!(duplicator.next().is_err());
    let mut sink_2 = TestSink::default();
    sink_2.consume(&mut duplicator).unwrap();
    assert_eq!(sink_2.counts(), [1, 17, 1, 0]);
}

#[test]
fn test_handle_element_follows_the_transition() {
    let mut buffer = load(event_correct_attributes());
    let mut observer = Observer::new(Buffer::new());
    observer.register(TestHandler::new(true));
    let extension = buffer.next().unwrap().unwrap();
    let through = observer
        .handle_element(extension, (StreamState::Extension, StreamState::Extension))
        .unwrap();
    assert!(matches!(through, Some(Element::Extension(_))));
    for _ in 0..5 {
        buffer.next().unwrap();
    }
    let trace = buffer.next().unwrap().unwrap();
    let dropped = observer
        .handle_element(trace, (StreamState::Classifier, StreamState::Trace))
        .unwrap();
    assert!(dropped.is_none());
    let event = buffer.next().unwrap().unwrap();
    let dropped = observer
        .handle_element(event, (StreamState::Trace, StreamState::Event))
        .unwrap();
    assert!(dropped.is_none());
    let event = buffer.next().unwrap().unwrap();
    let kept = observer
        .handle_element(event, (StreamState::Event, StreamState::Event))
        .unwrap();
    assert!(matches!(kept, Some(Element::Event(_))));
    assert_eq!(observer.release().unwrap().counts(), [1, 1, 2, 0]);
}
