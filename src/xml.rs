//! XML documents, held as their text.
use vstd::prelude::*;

verus! {

/// A document, held as its text.
pub struct XmlDocument {
    pub raw: String,
}

/// Why a document could not be read or written.
pub struct XmlError {
    pub message: String,
}

/// Reads documents.
#[derive(Clone, Copy, Debug)]
pub struct XmlParser;

impl XmlParser {
    /// The document whose text is `input`.
    pub fn parse(&self, input: &str) -> (r: Result<XmlDocument, XmlError>)
        ensures
            r matches Ok(d) && d.raw@ == input@,
    {
        Ok(XmlDocument { raw: input.to_owned() })
    }
}

/// Writes documents.
#[derive(Clone, Copy, Debug)]
pub struct XmlBuilder;

impl XmlBuilder {
    /// The text of `document`.
    pub fn build(&self, document: &XmlDocument) -> (r: Result<String, XmlError>)
        ensures
            r matches Ok(s) && s@ == document.raw@,
    {
        Ok(document.raw.clone())
    }
}

/// Entry point to the reader and the writer.
pub struct XML;

impl XML {
    pub fn parser() -> (r: XmlParser) {
        XmlParser
    }

    pub fn builder() -> (r: XmlBuilder) {
        XmlBuilder
    }
}

} // verus!
