//! Markup in the making: what a document holds after each piece that is
//! written, and a writer that never writes what would break it.

use vstd::prelude::*;
use vstd::string::*;
use vstd::utf8::encode_utf8;

use crate::error::{Error, ErrorView};
use crate::stream::xml::{
    declaration_text, escaped, layout, margin, tag_text, text_pairs, write_comment,
    write_declaration, write_empty, write_end, write_eof, write_start, writer_bytes,
    writer_into_bytes, written, xml_writer, Layout, XmlWriter,
};

verus! {

/// A document in the making: the bytes written so far, how the next piece is
/// laid out, and the failure that ended the writing, if one did.
pub struct Draft {
    pub bytes: Seq<u8>,
    pub layout: Layout,
    pub failure: Option<ErrorView>,
}

/// The error for markup that is nested deeper than the writer can indent.
pub open spec fn too_deep() -> ErrorView {
    ErrorView::XesError("Markup is nested too deep"@)
}

/// The error for an end tag where no element is open.
pub open spec fn unbalanced() -> ErrorView {
    ErrorView::XesError("End tag without start tag"@)
}

impl Draft {
    /// The draft with the given failure, unless it has failed before.
    pub open spec fn fail(self, e: ErrorView) -> Draft {
        if self.failure is Some {
            self
        } else {
            Draft { failure: Some(e), ..self }
        }
    }

    /// The draft after a start tag: on a new line where the layout asks for
    /// one; what follows is indented by one step more.
    pub open spec fn start(self, name: Seq<char>, attributes: Seq<(Seq<char>, Seq<char>)>) -> Draft {
        if self.failure is Some {
            self
        } else if self.layout.width + self.layout.step > isize::MAX {
            self.fail(too_deep())
        } else {
            Draft {
                bytes: self.bytes + margin(self.layout) + seq![60u8] + tag_text(name, attributes)
                    + seq![62u8],
                layout: Layout {
                    line_break: true,
                    width: self.layout.width + self.layout.step,
                    ..self.layout
                },
                failure: None,
            }
        }
    }

    /// The draft after the tag of an empty element.
    pub open spec fn empty(self, name: Seq<char>, attributes: Seq<(Seq<char>, Seq<char>)>) -> Draft {
        if self.failure is Some {
            self
        } else {
            Draft {
                bytes: self.bytes + margin(self.layout) + seq![60u8] + tag_text(name, attributes)
                    + seq![47u8, 62u8],
                layout: Layout { line_break: true, ..self.layout },
                failure: None,
            }
        }
    }

    /// The draft after an end tag: indented by one step less than what stood
    /// before it.
    pub open spec fn end(self, name: Seq<char>) -> Draft {
        if self.failure is Some {
            self
        } else if self.layout.width < self.layout.step {
            self.fail(unbalanced())
        } else {
            let shallower = Layout {
                width: (self.layout.width - self.layout.step) as nat,
                ..self.layout
            };
            Draft {
                bytes: self.bytes + margin(shallower) + seq![60u8, 47u8] + encode_utf8(name)
                    + seq![62u8],
                layout: Layout { line_break: true, ..shallower },
                failure: None,
            }
        }
    }

    /// The draft after a comment.
    pub open spec fn comment(self, text: Seq<char>) -> Draft {
        if self.failure is Some {
            self
        } else {
            Draft {
                bytes: self.bytes + margin(self.layout) + encode_utf8("<!--"@) + escaped(
                    encode_utf8(text),
                ) + encode_utf8("-->"@),
                layout: Layout { line_break: true, ..self.layout },
                failure: None,
            }
        }
    }

    /// The draft after an XML declaration.
    pub open spec fn declaration(self, version: Seq<char>, encoding: Seq<char>) -> Draft {
        if self.failure is Some {
            self
        } else {
            Draft {
                bytes: self.bytes + margin(self.layout) + seq![60u8, 63u8] + declaration_text(
                    version,
                    encoding,
                ) + seq![63u8, 62u8],
                layout: Layout { line_break: true, ..self.layout },
                failure: None,
            }
        }
    }

    /// The draft after the end of the document was marked.
    pub open spec fn eof(self) -> Draft {
        if self.failure is Some {
            self
        } else {
            Draft { layout: Layout { line_break: true, ..self.layout }, ..self }
        }
    }
}

/// A writer of indented XML into memory.
pub struct XmlOut {
    writer: XmlWriter,
    width: usize,
    step: usize,
}

impl XmlOut {
    /// The bytes written so far.
    pub closed spec fn bytes(&self) -> Seq<u8> {
        written(self.writer)
    }

    /// How the next piece of markup is laid out.
    pub closed spec fn layout(&self) -> Layout {
        layout(self.writer)
    }

    /// What must hold of the writer for it to be written to.
    pub closed spec fn wf(&self) -> bool {
        &&& layout(self.writer).width == self.width
        &&& layout(self.writer).step == self.step
        &&& written(self.writer).len() <= usize::MAX
    }

    /// The document as it stands.
    pub open spec fn draft(&self) -> Draft {
        Draft { bytes: self.bytes(), layout: self.layout(), failure: None }
    }

    /// The document as it stands after a piece was written with the given
    /// result.
    pub open spec fn after(&self, r: Result<usize, Error>) -> Draft {
        Draft {
            bytes: self.bytes(),
            layout: self.layout(),
            failure: match r {
                Ok(_) => None,
                Err(e) => Some(e@),
            },
        }
    }

    /// True if the result counts the bytes that were written since `before`.
    pub open spec fn counted(&self, before: XmlOut, r: Result<usize, Error>) -> bool {
        &&& before.bytes().len() <= self.bytes().len() <= usize::MAX
        &&& r matches Ok(n) ==> n == self.bytes().len() - before.bytes().len()
    }

    /// A writer that can be written to holds no more bytes than a vector can.
    pub proof fn lemma_bounded(&self)
        requires
            self.wf(),
        ensures
            self.bytes().len() <= usize::MAX,
    {
    }

    /// A writer that continues the given bytes, indenting by `step` times
    /// the character `fill` for each open element.
    pub fn new(out: Vec<u8>, fill: u8, step: usize) -> (r: Self)
        ensures
            r.wf(),
            r.bytes() == out@,
            r.layout() == (Layout { line_break: false, width: 0, fill, step: step as nat }),
    {
        let held = out.len();
        XmlOut { writer: xml_writer(out, fill, step), width: 0, step }
    }

    /// Writes a start tag, if the indentation can grow by another step.
    pub fn start(&mut self, name: &str, attributes: &Vec<(String, String)>) -> (r: Result<
        usize,
        Error,
    >)
        requires
            old(self).wf(),
        ensures
            final(self).wf(),
            final(self).after(r) == old(self).draft().start(name@, text_pairs(attributes@)),
            final(self).counted(*old(self), r),
    {
        let limit: usize = isize::MAX as usize;
        if self.step > limit || self.width > limit - self.step {
            return Err(Error::XesError(String::from_str("Markup is nested too deep")));
        }
        match write_start(&mut self.writer, name, attributes) {
            Ok(n) => {
                self.width = self.width + self.step;
                Ok(n)
            },
            Err(m) => Err(Error::XMLError(m)),
        }
    }

    /// Writes the tag of an empty element.
    pub fn empty(&mut self, name: &str, attributes: &Vec<(String, String)>) -> (r: Result<
        usize,
        Error,
    >)
        requires
            old(self).wf(),
        ensures
            final(self).wf(),
            final(self).after(r) == old(self).draft().empty(name@, text_pairs(attributes@)),
            final(self).counted(*old(self), r),
    {
        match write_empty(&mut self.writer, name, attributes) {
            Ok(n) => Ok(n),
            Err(m) => Err(Error::XMLError(m)),
        }
    }

    /// Writes an end tag, if an element is open.
    pub fn end(&mut self, name: &str) -> (r: Result<usize, Error>)
        requires
            old(self).wf(),
        ensures
            final(self).wf(),
            final(self).after(r) == old(self).draft().end(name@),
            final(self).counted(*old(self), r),
    {
        if self.width < self.step {
            return Err(Error::XesError(String::from_str("End tag without start tag")));
        }
        match write_end(&mut self.writer, name) {
            Ok(n) => {
                self.width = self.width - self.step;
                Ok(n)
            },
            Err(m) => Err(Error::XMLError(m)),
        }
    }

    /// Writes a comment.
    pub fn comment(&mut self, text: &str) -> (r: Result<usize, Error>)
        requires
            old(self).wf(),
        ensures
            final(self).wf(),
            final(self).after(r) == old(self).draft().comment(text@),
            final(self).counted(*old(self), r),
    {
        match write_comment(&mut self.writer, text) {
            Ok(n) => Ok(n),
            Err(m) => Err(Error::XMLError(m)),
        }
    }

    /// Writes an XML declaration.
    pub fn declaration(&mut self, version: &str, encoding: &str) -> (r: Result<usize, Error>)
        requires
            old(self).wf(),
        ensures
            final(self).wf(),
            final(self).after(r) == old(self).draft().declaration(version@, encoding@),
            final(self).counted(*old(self), r),
    {
        match write_declaration(&mut self.writer, version, encoding) {
            Ok(n) => Ok(n),
            Err(m) => Err(Error::XMLError(m)),
        }
    }

    /// Marks the end of the document.
    pub fn eof(&mut self) -> (r: Result<usize, Error>)
        requires
            old(self).wf(),
        ensures
            final(self).wf(),
            final(self).after(r) == old(self).draft().eof(),
            final(self).counted(*old(self), r),
    {
        match write_eof(&mut self.writer) {
            Ok(n) => Ok(n),
            Err(m) => Err(Error::XMLError(m)),
        }
    }

    /// The bytes written so far.
    pub fn inner(&mut self) -> (r: &Vec<u8>)
        ensures
            r@ == old(self).bytes(),
            *final(self) == *old(self),
    {
        writer_bytes(&mut self.writer)
    }

    /// Gives up the writer for the bytes written.
    pub fn into_inner(self) -> (r: Vec<u8>)
        ensures
            r@ == self.bytes(),
    {
        writer_into_bytes(self.writer)
    }
}

} // verus!
