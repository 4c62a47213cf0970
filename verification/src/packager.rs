//! The document packager: a document's JSON text goes into a deflated archive
//! with a single entry of a fixed name, and comes out of it again.

use vstd::prelude::*;
use crate::error::StoreError;
use crate::primitives::archive_one;
use crate::primitives::archive_limit;
use crate::primitives::archived;
use crate::primitives::entry_name_fits;
use crate::primitives::extract_one;
use crate::primitives::extracted;
use crate::primitives::parses_as_json;
use crate::primitives::well_formed_json;

verus! {

/// A document: the JSON text of one tree value.
#[derive(Debug)]
pub struct Document {
    text: Vec<u8>,
}

impl View for Document {
    type V = Seq<u8>;

    closed spec fn view(&self) -> Seq<u8> {
        self.text@
    }
}

impl Document {
    /// A document's text is one JSON value.
    #[verifier::type_invariant]
    spec fn is_json(&self) -> bool {
        well_formed_json(self.text@)
    }

    /// Accepts a text as a document where it is one JSON value.
    pub fn parse(text: Vec<u8>) -> (r: Result<Document, StoreError>)
        ensures
            well_formed_json(text@) ==> (r matches Ok(d) && d@ == text@),
            !well_formed_json(text@) ==> (r matches Err(e) && e == StoreError::MalformedDocument),
    {
        if parses_as_json(text.as_slice()) {
            Ok(Document { text })
        } else {
            Err(StoreError::MalformedDocument)
        }
    }

    /// The document's JSON text.
    pub fn as_bytes(&self) -> (text: &[u8])
        ensures
            text@ == self@,
    {
        self.text.as_slice()
    }

    /// Gives the document's JSON text back.
    pub fn into_bytes(self) -> (text: Vec<u8>)
        ensures
            text@ == self@,
    {
        self.text
    }
}

/// The name of the archive's one entry.
pub open spec fn entry_name_of() -> Seq<char> {
    "data.json"@
}

/// The name of the archive's one entry: nine ASCII characters.
pub fn entry_name() -> (name: &'static str)
    ensures
        name@ == entry_name_of(),
        entry_name_fits(name@),
{
    proof {
        reveal_strlit("data.json");
    }
    "data.json"
}

/// What a packaged archive holds: the document text of its entry, or the
/// error that reading it meets.
pub open spec fn unpacked(archive: Seq<u8>) -> Result<Seq<u8>, StoreError> {
    match extracted(archive, entry_name_of()) {
        None => Err(StoreError::MalformedContainer),
        Some(text) => if well_formed_json(text) {
            Ok(text)
        } else {
            Err(StoreError::MalformedDocument)
        },
    }
}

/// What `pack` returns for each outcome of the archive writer: the archive
/// that came back, or `IoError` where none did.
pub fn packed_outcome(written: Option<Vec<u8>>) -> (r: Result<Vec<u8>, StoreError>)
    ensures
        match written {
            Some(archive) => r matches Ok(a) && a@ == archive@,
            None => r matches Err(e) && e == StoreError::IoError,
        },
{
    match written {
        Some(archive) => Ok(archive),
        None => Err(StoreError::IoError),
    }
}

/// Packs a document into a one-entry archive. A document of up to
/// `archive_limit` bytes is always packed; a longer one may meet `IoError`.
/// An archive that comes back is the deflated archive of the document's
/// text, and unpacks to that text.
pub fn pack(document: &Document) -> (r: Result<Vec<u8>, StoreError>)
    ensures
        document@.len() <= archive_limit() ==> r is Ok,
        r matches Ok(archive) ==> archive@ == archived(entry_name_of(), document@) && unpacked(
            archive@,
        ) == Ok::<Seq<u8>, StoreError>(document@),
        r matches Err(e) ==> e == StoreError::IoError,
{
    proof {
        use_type_invariant(document);
    }
    packed_outcome(archive_one(entry_name(), document.as_bytes()))
}

/// Unpacks an archive: `MalformedContainer` where the entry cannot be read,
/// `MalformedDocument` where its bytes are not one JSON value, the document
/// otherwise.
pub fn unpack(archive: &[u8]) -> (r: Result<Document, StoreError>)
    ensures
        match unpacked(archive@) {
            Ok(text) => r matches Ok(d) && d@ == text,
            Err(e) => r matches Err(x) && x == e,
        },
{
    match extract_one(archive, entry_name()) {
        None => Err(StoreError::MalformedContainer),
        Some(text) => Document::parse(text),
    }
}

} // verus!
