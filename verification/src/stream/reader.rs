//! Reading: from the tokens of a document to the elements of a stream.

use vstd::prelude::*;
use vstd::string::*;

use crate::error::{Error, ErrorView};
use crate::model::{lemma_views_push, views};
use crate::stream::frame::{
    element_of, frame_of, FrameView, XesElement, XesElementView, XesIntermediate,
};
use crate::stream::xml::{
    pending, read_token, tokenizer, tokens_of, Tokenizer, XmlToken, XmlTokenView,
};
use crate::stream::{exhausted, outcome, Element, ElementView, Outcome, ResOpt, Stream};
use crate::text::{decimal, nat_text, same_text};

verus! {

/// The stream element that a typed element of the document is, if it is one:
/// the attributes of a `values` element and a whole log are none.
pub open spec fn streamed(element: XesElementView) -> Option<ElementView> {
    match element {
        XesElementView::Attribute(x) => Some(ElementView::Attribute(x)),
        XesElementView::Extension(x) => Some(ElementView::Extension(x)),
        XesElementView::Global(x) => Some(ElementView::Global(x)),
        XesElementView::Classifier(x) => Some(ElementView::Classifier(x)),
        XesElementView::Event(x) => Some(ElementView::Event(x)),
        XesElementView::Trace(x) => Some(ElementView::Trace(x)),
        XesElementView::Value(_) => None,
        XesElementView::Log(_) => None,
    }
}

/// The error for a child of the root that is no stream element.
pub open spec fn unsupported(element: XesElementView) -> ErrorView {
    ErrorView::XesError(
        "XES element is not supported for streaming: "@ + (match element {
            XesElementView::Log(_) => "log"@,
            _ => "values"@,
        }),
    )
}

/// The error for a document without a `log` element at its root.
pub open spec fn no_root() -> ErrorView {
    ErrorView::XesError("No root element found"@)
}

/// The error for an end tag that closes nothing.
pub open spec fn stray_end() -> ErrorView {
    ErrorView::XesError("Unexpected end tag"@)
}

/// The error for a document that the tokenizer cannot read.
pub open spec fn malformed(position: nat, detail: Seq<char>) -> ErrorView {
    ErrorView::XesError("Error at position "@ + decimal(position) + ": "@ + detail)
}

/// Where a complete element goes, given the elements that are still open,
/// outermost first: the open elements afterwards, and what there is to
/// report, if anything.
///
/// A child of the root is reported: as an element of the stream if it is
/// one, else as an error. The root itself, once complete, ends the stream.
/// Any other element is added to the children of the innermost open element.
pub open spec fn place(frames: Seq<FrameView>, element: XesElementView) -> (
    Seq<FrameView>,
    Option<Outcome>,
) {
    if frames.len() == 1 {
        match streamed(element) {
            Some(e) => (frames, Some(Ok(Some(e)))),
            None => (frames, Some(Err(unsupported(element)))),
        }
    } else if frames.len() == 0 {
        (frames, Some(Ok(None)))
    } else {
        (
            frames.drop_last().push(
                FrameView { elements: frames.last().elements.push(element), ..frames.last() },
            ),
            None,
        )
    }
}

/// What one token does to the elements that are open: the open elements
/// afterwards, and what there is to report, if anything.
///
/// A start tag opens an element; the first must be `log`. An end tag
/// completes the innermost open element, the tag of an empty element
/// completes the element that it stands for: the element is typed and
/// placed. At the end of the document the stream ends, unless no element was
/// ever opened. An error of the tokenizer is reported with its position.
/// Everything else is passed over.
#[verifier::opaque]
pub open spec fn accept(frames: Seq<FrameView>, token: XmlTokenView) -> (
    Seq<FrameView>,
    Option<Outcome>,
) {
    match token {
        XmlTokenView::Start(tag) => match frame_of(tag) {
            Err(e) => (frames, Some(Err(e))),
            Ok(frame) => if frames.len() == 0 && frame.element_name != "log"@ {
                (frames, Some(Err(no_root())))
            } else {
                (frames.push(frame), None)
            },
        },
        XmlTokenView::End => if frames.len() == 0 {
            (frames, Some(Err(stray_end())))
        } else {
            match element_of(frames.last()) {
                Err(e) => (frames.drop_last(), Some(Err(e))),
                Ok(element) => place(frames.drop_last(), element),
            }
        },
        XmlTokenView::Empty(tag) => match frame_of(tag) {
            Err(e) => (frames, Some(Err(e))),
            Ok(frame) => if frames.len() == 0 && frame.element_name != "log"@ {
                (frames, Some(Err(no_root())))
            } else {
                match element_of(frame) {
                    Err(e) => (frames, Some(Err(e))),
                    Ok(element) => place(frames, element),
                }
            },
        },
        XmlTokenView::Other => (frames, None),
        XmlTokenView::Eof => if frames.len() == 0 {
            (frames, Some(Err(no_root())))
        } else {
            (frames, Some(Ok(None)))
        },
        XmlTokenView::Error { position, detail } => (frames, Some(Err(malformed(position, detail)))),
    }
}

/// What the tokens from `from` on do to the elements that are open, up to
/// the first token that gives something to report; where the tokens run out
/// before that, the end of the document follows them. The open elements
/// afterwards, the number of tokens that were taken up to there, and what is
/// reported.
pub open spec fn scan(frames: Seq<FrameView>, tokens: Seq<XmlTokenView>, from: int) -> (
    Seq<FrameView>,
    int,
    Outcome,
)
    decreases tokens.len() - from,
{
    if from < 0 || from >= tokens.len() {
        let (then, said) = accept(frames, XmlTokenView::Eof);
        (then, tokens.len() as int, said->Some_0)
    } else {
        let (then, said) = accept(frames, tokens[from]);
        match said {
            Some(out) => (then, from + 1, out),
            None => scan(then, tokens, from + 1),
        }
    }
}

/// XML deserialization of XES.
///
/// Reads a document that is held in memory and yields the children of its
/// `log` element one by one.
pub struct XesReader {
    tokenizer: Tokenizer,
    stack: Vec<XesIntermediate>,
    done: bool,
    reported: Ghost<Seq<Outcome>>,
}

impl XesReader {
    /// The tokens of the document that are yet to be read.
    pub closed spec fn unread(&self) -> Seq<XmlTokenView> {
        pending(self.tokenizer)
    }

    /// The elements of the document that are open, outermost first.
    pub closed spec fn frames(&self) -> Seq<FrameView> {
        views(self.stack@)
    }

    /// True once the end of the stream has been reported.
    pub closed spec fn finished(&self) -> bool {
        self.done
    }

    /// A reader at the start of the given document.
    pub fn new(document: Vec<u8>) -> (r: Self)
        ensures
            r.inv(),
            r.unread() == tokens_of(document@),
            r.frames() == Seq::<FrameView>::empty(),
            !r.finished(),
            r.history() == Seq::<Outcome>::empty(),
    {
        let r = XesReader {
            tokenizer: tokenizer(document),
            stack: Vec::new(),
            done: false,
            reported: Ghost(Seq::empty()),
        };
        proof {
            assert(views(r.stack@) =~= Seq::<FrameView>::empty());
        }
        r
    }

    /// A reader at the start of the given document.
    pub fn from(document: Vec<u8>) -> (r: Self)
        ensures
            r.inv(),
            r.unread() == tokens_of(document@),
            r.frames() == Seq::<FrameView>::empty(),
            !r.finished(),
            r.history() == Seq::<Outcome>::empty(),
    {
        XesReader::new(document)
    }

    /// Puts a complete element where it belongs.
    fn put(&mut self, element: XesElement) -> (r: Option<ResOpt>)
        ensures
            final(self).frames() == place(old(self).frames(), element@).0,
            match r {
                Some(out) => place(old(self).frames(), element@).1 == Some(outcome(out)),
                None => place(old(self).frames(), element@).1 is None,
            },
            final(self).tokenizer == old(self).tokenizer,
            final(self).done == old(self).done,
            final(self).reported == old(self).reported,
    {
        let n = self.stack.len();
        if n == 1 {
            match element {
                XesElement::Attribute(x) => Some(Ok(Some(Element::Attribute(x)))),
                XesElement::Extension(x) => Some(Ok(Some(Element::Extension(x)))),
                XesElement::Global(x) => Some(Ok(Some(Element::Global(x)))),
                XesElement::Classifier(x) => Some(Ok(Some(Element::Classifier(x)))),
                XesElement::Event(x) => Some(Ok(Some(Element::Event(x)))),
                XesElement::Trace(x) => Some(Ok(Some(Element::Trace(x)))),
                XesElement::Log(_) => Some(
                    Err(
                        Error::XesError(
                            String::from_str("XES element is not supported for streaming: ").concat(
                                "log",
                            ),
                        ),
                    ),
                ),
                XesElement::Value(_) => Some(
                    Err(
                        Error::XesError(
                            String::from_str("XES element is not supported for streaming: ").concat(
                                "values",
                            ),
                        ),
                    ),
                ),
            }
        } else if n == 0 {
            Some(Ok(None))
        } else {
            let ghost before = self.stack@;
            self.stack[n - 1].add_element(element);
            proof {
                assert(views(self.stack@) =~= views(before).drop_last().push(
                    FrameView {
                        elements: views(before).last().elements.push(element@),
                        ..views(before).last()
                    },
                ));
            }
            None
        }
    }

    /// Takes one token of the document in: opens, completes or places an
    /// element as the token asks, and says what there is to report, if
    /// anything.
    pub fn accept(&mut self, token: XmlToken) -> (r: Option<ResOpt>)
        ensures
            final(self).frames() == accept(old(self).frames(), token@).0,
            match r {
                Some(out) => accept(old(self).frames(), token@).1 == Some(outcome(out)),
                None => accept(old(self).frames(), token@).1 is None,
            },
            final(self).unread() == old(self).unread(),
            final(self).finished() == old(self).finished(),
            final(self).history() == old(self).history(),
    {
        reveal(accept);
        match token {
            XmlToken::Start(tag) => {
                match XesIntermediate::from_event(tag) {
                    Err(e) => Some(Err(e)),
                    Ok(frame) => {
                        if self.stack.len() == 0 && !same_text(frame.element_name.as_str(), "log") {
                            Some(Err(Error::XesError(String::from_str("No root element found"))))
                        } else {
                            proof {
                                lemma_views_push(self.stack@, frame);
                            }
                            self.stack.push(frame);
                            None
                        }
                    },
                }
            },
            XmlToken::End => {
                let ghost before = self.stack@;
                match self.stack.pop() {
                    None => Some(Err(Error::XesError(String::from_str("Unexpected end tag")))),
                    Some(frame) => {
                        proof {
                            assert(views(self.stack@) =~= views(before).drop_last());
                        }
                        match XesElement::try_from(frame) {
                            Err(e) => Some(Err(e)),
                            Ok(element) => self.put(element),
                        }
                    },
                }
            },
            XmlToken::Empty(tag) => {
                match XesIntermediate::from_event(tag) {
                    Err(e) => Some(Err(e)),
                    Ok(frame) => {
                        if self.stack.len() == 0 && !same_text(frame.element_name.as_str(), "log") {
                            Some(Err(Error::XesError(String::from_str("No root element found"))))
                        } else {
                            match XesElement::try_from(frame) {
                                Err(e) => Some(Err(e)),
                                Ok(element) => self.put(element),
                            }
                        }
                    },
                }
            },
            XmlToken::Other => None,
            XmlToken::Eof => {
                if self.stack.len() == 0 {
                    Some(Err(Error::XesError(String::from_str("No root element found"))))
                } else {
                    Some(Ok(None))
                }
            },
            XmlToken::Error { position, detail } => {
                let message = String::from_str("Error at position ").concat(
                    nat_text(position as u64).as_str(),
                ).concat(": ").concat(detail.as_str());
                Some(Err(Error::XesError(message)))
            },
        }
    }
}

impl Stream for XesReader {
    closed spec fn inv(&self) -> bool {
        exhausted(self.reported@) ==> self.done
    }

    closed spec fn history(&self) -> Seq<Outcome> {
        self.reported@
    }

    closed spec fn remaining(&self) -> nat {
        pending(self.tokenizer).len()
    }

    /// Reads on to the next child of the `log` element and yields it.
    ///
    /// What is reported is what the tokens that were unread give, by `scan`;
    /// the tokens that it took are read. Once the end was reported it is
    /// reported again, and nothing is read.
    fn next(&mut self) -> (r: ResOpt)
        ensures
            old(self).finished() ==> outcome(r) == Ok::<Option<ElementView>, ErrorView>(None)
                && final(self).unread() == old(self).unread() && final(self).frames() == old(
                self,
            ).frames(),
            !old(self).finished() ==> (final(self).frames(), outcome(r)) == (
                scan(old(self).frames(), old(self).unread(), 0).0,
                scan(old(self).frames(), old(self).unread(), 0).2,
            ) && final(self).unread() == old(self).unread().skip(
                scan(old(self).frames(), old(self).unread(), 0).1,
            ),
            final(self).finished() == (old(self).finished() || outcome(r) == Ok::<
                Option<ElementView>,
                ErrorView,
            >(None)),
    {
        if self.done {
            self.reported = Ghost(self.reported@.push(Ok(None)));
            return Ok(None);
        }
        let ghost frames0 = views(self.stack@);
        let ghost tokens0 = pending(self.tokenizer);
        let ghost mut taken: int = 0;
        proof {
            assert(tokens0.skip(0) =~= tokens0);
        }
        loop
            invariant
                !self.done,
                !old(self).done,
                exhausted(old(self).reported@) ==> old(self).done,
                self.reported == old(self).reported,
                frames0 == views(old(self).stack@),
                tokens0 == pending(old(self).tokenizer),
                0 <= taken <= tokens0.len(),
                pending(self.tokenizer) == tokens0.skip(taken),
                scan(frames0, tokens0, 0) == scan(views(self.stack@), tokens0, taken),
            decreases tokens0.len() - taken,
        {
            let ghost unread = pending(self.tokenizer);
            let ghost frames = views(self.stack@);
            let token = read_token(&mut self.tokenizer);
            proof {
                if unread.len() > 0 {
                    assert(unread[0] == tokens0[taken]);
                    assert(tokens0.skip(taken).skip(1) =~= tokens0.skip(taken + 1));
                } else {
                    assert(taken == tokens0.len());
                    assert(tokens0.skip(taken) =~= tokens0.skip(tokens0.len() as int));
                }
            }
            let said = self.accept(token);
            proof {
                if unread.len() > 0 {
                    taken = taken + 1;
                } else {
                    reveal(accept);
                }
            }
            match said {
                Some(out) => {
                    match &out {
                        Ok(None) => {
                            self.done = true;
                        },
                        _ => {},
                    }
                    self.reported = Ghost(self.reported@.push(outcome(out)));
                    return out;
                },
                None => {},
            }
        }
    }
}

} // verus!
