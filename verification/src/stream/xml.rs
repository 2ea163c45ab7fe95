//! The XML tokenizer and the XML writer that the codec is built on.
//!
//! Both are the work of `quick_xml`. What this module states of them is taken
//! on trust; the codec is proved from it.

use quick_xml::events::attributes::Attribute;
use quick_xml::events::{BytesDecl, BytesEnd, BytesStart, BytesText, Event};
use vstd::prelude::*;
use vstd::string::*;
use vstd::utf8::encode_utf8;

verus! {

/// A start tag, or the tag of an empty element, as the tokenizer found it:
/// the text between the angle brackets, of which the first `name_len` bytes
/// are the name.
#[derive(Debug)]
pub struct XmlTag {
    pub content: Vec<u8>,
    pub name_len: usize,
}

/// What an [`XmlTag`] denotes.
pub struct XmlTagView {
    pub content: Seq<u8>,
    pub name_len: nat,
}

impl View for XmlTag {
    type V = XmlTagView;

    open spec fn view(&self) -> XmlTagView {
        XmlTagView { content: self.content@, name_len: self.name_len as nat }
    }
}

/// One token of an XML document.
#[derive(Debug)]
pub enum XmlToken {
    /// `<name ..>`
    Start(XmlTag),
    /// `</name>`
    End,
    /// `<name ../>`
    Empty(XmlTag),
    /// Text, a comment, character data, a declaration, a processing
    /// instruction or a document type.
    Other,
    /// The end of the document.
    Eof,
    /// The document is malformed before the given byte.
    Error { position: usize, detail: String },
}

/// What an [`XmlToken`] denotes.
pub enum XmlTokenView {
    Start(XmlTagView),
    End,
    Empty(XmlTagView),
    Other,
    Eof,
    Error { position: nat, detail: Seq<char> },
}

impl View for XmlToken {
    type V = XmlTokenView;

    open spec fn view(&self) -> XmlTokenView {
        match self {
            XmlToken::Start(t) => XmlTokenView::Start(t@),
            XmlToken::End => XmlTokenView::End,
            XmlToken::Empty(t) => XmlTokenView::Empty(t@),
            XmlToken::Other => XmlTokenView::Other,
            XmlToken::Eof => XmlTokenView::Eof,
            XmlToken::Error { position, detail } => XmlTokenView::Error {
                position: *position as nat,
                detail: detail@,
            },
        }
    }
}

/// One attribute of a tag: its key and its raw value, or the reason why the
/// tag could not be read any further.
pub type RawAttribute = Result<(Vec<u8>, Vec<u8>), String>;

/// What a [`RawAttribute`] denotes.
pub type RawAttributeView = Result<(Seq<u8>, Seq<u8>), Seq<char>>;

/// What a raw attribute denotes.
pub open spec fn raw_view(a: RawAttribute) -> RawAttributeView {
    match a {
        Ok((k, v)) => Ok((k@, v@)),
        Err(e) => Err(e@),
    }
}

/// What a list of raw attributes denotes.
pub open spec fn raw_views(s: Seq<RawAttribute>) -> Seq<RawAttributeView> {
    Seq::new(s.len(), |i: int| raw_view(s[i]))
}

/// A tokenizer over a document that is held in memory: a
/// `quick_xml::Reader` over a cursor. Nothing is known of it but what
/// `pending` says.
#[verifier::external_body]
pub struct Tokenizer {
    inner: quick_xml::Reader<std::io::Cursor<Vec<u8>>>,
}

/// The tokens that a tokenizer has yet to hand out, in order: up to the end
/// of its document or, where the document is malformed, up to and with the
/// error. The end itself is not among them.
pub uninterp spec fn pending(tokenizer: Tokenizer) -> Seq<XmlTokenView>;

/// The tokens of a document: what a tokenizer that starts on it hands out.
pub uninterp spec fn tokens_of(document: Seq<u8>) -> Seq<XmlTokenView>;

/// The attributes of a tag, in the order in which they are written: what
/// `quick_xml::events::BytesStart::attributes` yields for the tag, each item
/// with key and value as they stand in the document (no entity is resolved)
/// or, for a malformed or repeated attribute, with the error in the form
/// that `Debug` gives it.
pub uninterp spec fn attributes_of(content: Seq<u8>, name_len: nat) -> Seq<RawAttributeView>;

/// `quick_xml::Reader::from_reader` on a cursor over the document: a
/// tokenizer that has the tokens of the document before it.
#[verifier::external_body]
pub(crate) fn tokenizer(document: Vec<u8>) -> (t: Tokenizer)
    ensures
        pending(t) == tokens_of(document@),
{
    Tokenizer { inner: quick_xml::Reader::from_reader(std::io::Cursor::new(document)) }
}

/// `quick_xml::Reader::read_event`, and `buffer_position` after an error:
/// hands out the next pending token; at the end of the document `Eof`, again
/// and again. After an error the tokenizer is at its end. Of a tag the name
/// is never longer than the tag.
#[verifier::external_body]
pub(crate) fn read_token(t: &mut Tokenizer) -> (token: XmlToken)
    ensures
        pending(*old(t)).len() == 0 ==> token@ == XmlTokenView::Eof && pending(*final(t)).len()
            == 0,
        pending(*old(t)).len() > 0 ==> token@ == pending(*old(t))[0] && pending(*final(t))
            == pending(*old(t)).skip(1),
        token@ is Error ==> pending(*final(t)).len() == 0,
        match token {
            XmlToken::Start(tag) => tag.name_len <= tag.content@.len(),
            XmlToken::Empty(tag) => tag.name_len <= tag.content@.len(),
            _ => true,
        },
{
    let mut buffer: Vec<u8> = Vec::new();
    match t.inner.read_event(&mut buffer) {
        Ok(Event::Start(e)) => XmlToken::Start(XmlTag { content: e.to_vec(), name_len: e.name().len() }),
        Ok(Event::End(_)) => XmlToken::End,
        Ok(Event::Empty(e)) => XmlToken::Empty(XmlTag { content: e.to_vec(), name_len: e.name().len() }),
        Ok(Event::Eof) => XmlToken::Eof,
        Ok(_) => XmlToken::Other,
        Err(e) => XmlToken::Error { position: t.inner.buffer_position(), detail: format!("{:?}", e) },
    }
}

/// `quick_xml::events::BytesStart::attributes` on the tag with the given
/// content: the attributes of the tag.
#[verifier::external_body]
pub(crate) fn tag_attributes(content: &Vec<u8>, name_len: usize) -> (r: Vec<RawAttribute>)
    ensures
        raw_views(r@) == attributes_of(content@, name_len as nat),
{
    let tag = BytesStart::borrowed(content, name_len);
    tag.attributes().map(|a| match a {
        Ok(a) => Ok((a.key.to_vec(), a.value.to_vec())),
        Err(e) => Err(format!("{:?}", e)),
    }).collect()
}

/// The value of an attribute with its entities resolved, as
/// `quick_xml::events::attributes::Attribute::unescaped_value` gives it: the
/// five named entities and the numbered ones are replaced by what they stand
/// for. For a value that holds an `&` that begins no entity, the error in the
/// form that `Debug` gives it.
pub uninterp spec fn unescaped(raw: Seq<u8>) -> Result<Seq<u8>, Seq<char>>;

/// What resolved bytes, or the text of an error, denote.
pub open spec fn resolved_view(r: Result<Vec<u8>, String>) -> Result<Seq<u8>, Seq<char>> {
    match r {
        Ok(bytes) => Ok(bytes@),
        Err(m) => Err(m@),
    }
}

/// `quick_xml::events::attributes::Attribute::unescaped_value` on an
/// attribute with the given raw value: the value with its entities resolved.
#[verifier::external_body]
pub(crate) fn unescape_value(raw: &Vec<u8>) -> (r: Result<Vec<u8>, String>)
    ensures
        resolved_view(r) == unescaped(raw@),
{
    let nothing: &[u8] = &[];
    match Attribute::from((nothing, raw.as_slice())).unescaped_value() {
        Ok(value) => Ok(value.into_owned()),
        Err(e) => Err(format!("{:?}", e)),
    }
}

/// An XML writer that indents and that writes into memory: a
/// `quick_xml::Writer` over a vector. Nothing is known of it but what
/// `written` and `layout` say.
#[verifier::external_body]
pub struct XmlWriter {
    inner: quick_xml::Writer<Vec<u8>>,
}

/// How a writer lays out what it writes next.
pub struct Layout {
    /// Whether the next piece of markup starts on a new line.
    pub line_break: bool,
    /// The number of indentation characters at the start of a new line.
    pub width: nat,
    /// The indentation character.
    pub fill: u8,
    /// By how many characters an open element indents its children.
    pub step: nat,
}

/// The bytes that a writer has written, those that it was made with first.
pub uninterp spec fn written(writer: XmlWriter) -> Seq<u8>;

/// How a writer lays out what it writes next.
pub uninterp spec fn layout(writer: XmlWriter) -> Layout;

/// What a writer puts before a piece of markup: nothing, or a line feed and
/// the indentation.
pub open spec fn margin(l: Layout) -> Seq<u8> {
    if l.line_break {
        seq![10u8] + Seq::new(l.width, |i: int| l.fill)
    } else {
        Seq::empty()
    }
}

/// The bytes that stand for a byte of text in markup: an entity for each of
/// `<`, `>`, `'`, `&` and `"`, the byte itself for any other.
pub open spec fn escaped_byte(b: u8) -> Seq<u8> {
    if b == 60 {
        encode_utf8("&lt;"@)
    } else if b == 62 {
        encode_utf8("&gt;"@)
    } else if b == 39 {
        encode_utf8("&apos;"@)
    } else if b == 38 {
        encode_utf8("&amp;"@)
    } else if b == 34 {
        encode_utf8("&quot;"@)
    } else {
        seq![b]
    }
}

/// Text as it stands in markup, byte by byte.
pub open spec fn escaped(raw: Seq<u8>) -> Seq<u8>
    decreases raw.len(),
{
    if raw.len() == 0 {
        Seq::empty()
    } else {
        escaped(raw.drop_last()) + escaped_byte(raw.last())
    }
}

/// An attribute as it stands in a tag: a space, the key, and the escaped
/// value between double quotes after an equals sign.
pub open spec fn attribute_text(key: Seq<char>, value: Seq<char>) -> Seq<u8> {
    seq![32u8] + encode_utf8(key) + seq![61u8, 34u8] + escaped(encode_utf8(value)) + seq![34u8]
}

/// What stands between the angle brackets of a tag: the name and the
/// attributes in their order.
pub open spec fn tag_text(name: Seq<char>, attributes: Seq<(Seq<char>, Seq<char>)>) -> Seq<u8>
    decreases attributes.len(),
{
    if attributes.len() == 0 {
        encode_utf8(name)
    } else {
        tag_text(name, attributes.drop_last()) + attribute_text(
            attributes.last().0,
            attributes.last().1,
        )
    }
}

/// What stands between `<?` and `?>` in an XML declaration with a version
/// and an encoding.
pub open spec fn declaration_text(version: Seq<char>, encoding: Seq<char>) -> Seq<u8> {
    encode_utf8("xml version=\""@) + encode_utf8(version) + encode_utf8("\" encoding=\""@)
        + encode_utf8(encoding) + seq![34u8]
}

/// What a list of pairs of texts denotes.
pub open spec fn text_pairs(s: Seq<(String, String)>) -> Seq<(Seq<char>, Seq<char>)> {
    Seq::new(s.len(), |i: int| (s[i].0@, s[i].1@))
}

/// `quick_xml::Writer::new_with_indent` on a vector: a writer that has
/// written what the vector holds and starts without a line break and without
/// indentation.
#[verifier::external_body]
pub(crate) fn xml_writer(out: Vec<u8>, fill: u8, step: usize) -> (w: XmlWriter)
    ensures
        written(w) == out@,
        layout(w) == (Layout { line_break: false, width: 0, fill, step: step as nat }),
{
    XmlWriter { inner: quick_xml::Writer::new_with_indent(out, fill, step) }
}

/// `quick_xml::Writer::write_event` with a `Start` event made by
/// `BytesStart::owned` and `extend_attributes`: the margin and the tag
/// between `<` and `>` are written, the indentation grows by one step, and
/// what follows starts on a new line. A write into memory does not fail; the
/// number of bytes written is returned.
#[verifier::external_body]
pub(crate) fn write_start(w: &mut XmlWriter, name: &str, attributes: &Vec<(String, String)>) -> (r:
    Result<usize, String>)
    requires
        layout(*old(w)).width + layout(*old(w)).step <= isize::MAX,
    ensures
        r is Ok,
        written(*final(w)) == written(*old(w)) + margin(layout(*old(w))) + seq![60u8] + tag_text(
            name@,
            text_pairs(attributes@),
        ) + seq![62u8],
        layout(*final(w)) == (Layout {
            line_break: true,
            width: layout(*old(w)).width + layout(*old(w)).step,
            ..layout(*old(w))
        }),
        written(*final(w)).len() <= usize::MAX,
        r matches Ok(n) ==> n == written(*final(w)).len() - written(*old(w)).len(),
{
    let mut e = BytesStart::owned(name.as_bytes().to_vec(), name.len());
    e.extend_attributes(attributes.iter().map(|(k, v)| (k.as_str(), v.as_str())));
    w.inner.write_event(Event::Start(e)).map_err(|e| format!("{:?}", e))
}

/// `quick_xml::Writer::write_event` with an `Empty` event made by
/// `BytesStart::owned` and `extend_attributes`: the margin and the tag
/// between `<` and `/>` are written, and what follows starts on a new line.
#[verifier::external_body]
pub(crate) fn write_empty(w: &mut XmlWriter, name: &str, attributes: &Vec<(String, String)>) -> (r:
    Result<usize, String>)
    ensures
        r is Ok,
        written(*final(w)) == written(*old(w)) + margin(layout(*old(w))) + seq![60u8] + tag_text(
            name@,
            text_pairs(attributes@),
        ) + seq![47u8, 62u8],
        layout(*final(w)) == (Layout { line_break: true, ..layout(*old(w)) }),
        written(*final(w)).len() <= usize::MAX,
        r matches Ok(n) ==> n == written(*final(w)).len() - written(*old(w)).len(),
{
    let mut e = BytesStart::owned(name.as_bytes().to_vec(), name.len());
    e.extend_attributes(attributes.iter().map(|(k, v)| (k.as_str(), v.as_str())));
    w.inner.write_event(Event::Empty(e)).map_err(|e| format!("{:?}", e))
}

/// `quick_xml::Writer::write_event` with an `End` event: the indentation
/// shrinks by one step, then the margin and the name between `</` and `>`
/// are written, and what follows starts on a new line.
#[verifier::external_body]
pub(crate) fn write_end(w: &mut XmlWriter, name: &str) -> (r: Result<usize, String>)
    requires
        layout(*old(w)).width >= layout(*old(w)).step,
    ensures
        r is Ok,
        written(*final(w)) == written(*old(w)) + margin(
            Layout {
                width: (layout(*old(w)).width - layout(*old(w)).step) as nat,
                ..layout(*old(w))
            },
        ) + seq![60u8, 47u8] + encode_utf8(name@) + seq![62u8],
        layout(*final(w)) == (Layout {
            line_break: true,
            width: (layout(*old(w)).width - layout(*old(w)).step) as nat,
            ..layout(*old(w))
        }),
        written(*final(w)).len() <= usize::MAX,
        r matches Ok(n) ==> n == written(*final(w)).len() - written(*old(w)).len(),
{
    w.inner.write_event(Event::End(BytesEnd::borrowed(name.as_bytes()))).map_err(
        |e| format!("{:?}", e),
    )
}

/// `quick_xml::Writer::write_event` with a `Comment` event made by
/// `BytesText::from_plain_str`: the margin and the escaped text between
/// `<!--` and `-->` are written, and what follows starts on a new line.
#[verifier::external_body]
pub(crate) fn write_comment(w: &mut XmlWriter, text: &str) -> (r: Result<usize, String>)
    ensures
        r is Ok,
        written(*final(w)) == written(*old(w)) + margin(layout(*old(w))) + encode_utf8("<!--"@)
            + escaped(encode_utf8(text@)) + encode_utf8("-->"@),
        layout(*final(w)) == (Layout { line_break: true, ..layout(*old(w)) }),
        written(*final(w)).len() <= usize::MAX,
        r matches Ok(n) ==> n == written(*final(w)).len() - written(*old(w)).len(),
{
    w.inner.write_event(Event::Comment(BytesText::from_plain_str(text))).map_err(
        |e| format!("{:?}", e),
    )
}

/// `quick_xml::Writer::write_event` with a `Decl` event made by
/// `BytesDecl::new` with a version and an encoding: the margin and the
/// declaration between `<?` and `?>` are written, and what follows starts on
/// a new line.
#[verifier::external_body]
pub(crate) fn write_declaration(w: &mut XmlWriter, version: &str, encoding: &str) -> (r: Result<
    usize,
    String,
>)
    ensures
        r is Ok,
        written(*final(w)) == written(*old(w)) + margin(layout(*old(w))) + seq![60u8, 63u8]
            + declaration_text(version@, encoding@) + seq![63u8, 62u8],
        layout(*final(w)) == (Layout { line_break: true, ..layout(*old(w)) }),
        written(*final(w)).len() <= usize::MAX,
        r matches Ok(n) ==> n == written(*final(w)).len() - written(*old(w)).len(),
{
    let e = BytesDecl::new(version.as_bytes(), Some(encoding.as_bytes()), None);
    w.inner.write_event(Event::Decl(e)).map_err(|e| format!("{:?}", e))
}

/// `quick_xml::Writer::write_event` with the `Eof` event: nothing is
/// written, and what follows starts on a new line.
#[verifier::external_body]
pub(crate) fn write_eof(w: &mut XmlWriter) -> (r: Result<usize, String>)
    ensures
        r is Ok,
        r matches Ok(n) ==> n == 0,
        written(*final(w)) == written(*old(w)),
        layout(*final(w)) == (Layout { line_break: true, ..layout(*old(w)) }),
{
    w.inner.write_event(Event::Eof).map_err(|e| format!("{:?}", e))
}

/// `quick_xml::Writer::inner`: the bytes written so far.
#[verifier::external_body]
pub(crate) fn writer_bytes(w: &mut XmlWriter) -> (r: &Vec<u8>)
    ensures
        r@ == written(*old(w)),
        *final(w) == *old(w),
{
    w.inner.inner()
}

/// `quick_xml::Writer::into_inner`: the bytes written.
#[verifier::external_body]
pub(crate) fn writer_into_bytes(w: XmlWriter) -> (r: Vec<u8>)
    ensures
        r@ == written(w),
{
    w.inner.into_inner()
}

} // verus!
