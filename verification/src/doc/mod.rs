//! Document text extraction: PDF and DOCX documents go through their
//! extraction libraries, everything else must be UTF-8.
use vstd::prelude::*;
use vstd::utf8::{decode_utf8, valid_utf8};
use crate::error::{RagloomError, RagloomErrorKind};
use crate::state::failed::{last_slash, last_slash_before, lemma_stripped_last, strip_slashes_end, strip_trailing_slashes};
use crate::text::{ascii_lower_seq, chars_of, owned, string_from_range};
use crate::pipeline::points::last_index_of;
use crate::transform::chunker::router::ascii_lowercase;

verus! {

/// The text of a loaded document.
#[derive(Debug, Clone, PartialEq, Eq)]
pub struct LoadedDocument {
    pub text: String,
}

/// Loads documents from the local filesystem; loading itself is I/O done by
/// the caller, which then hands the bytes to [`extract_document_text`].
#[derive(Debug, Default, Clone, Copy)]
pub struct FsUtf8Loader;

/// The file name of a `/`-separated path, as `std::path::Path::file_name`
/// reports it: the last component, `None` for a path ending in `..` or with
/// no component.
pub open spec fn path_file_name(s: Seq<char>) -> Option<Seq<char>> {
    let t = strip_trailing_slashes(s);
    if t.len() == 0 {
        None
    } else {
        let name = t.skip(last_slash_before(t, t.len() as int) + 1);
        if name == ".."@ {
            None
        } else {
            Some(name)
        }
    }
}

/// The extension of a path, as `std::path::Path::extension` reports it: the
/// text after the last `.` of the file name, unless that `.` starts the name.
pub open spec fn path_extension(s: Seq<char>) -> Option<Seq<char>> {
    match path_file_name(s) {
        None => None,
        Some(name) => {
            let k = last_index_of(name, '.');
            if k <= 0 {
                None
            } else {
                Some(name.skip(k + 1))
            }
        },
    }
}

/// The path's extension equals `extension`, ignoring ASCII case.
pub open spec fn has_extension_spec(path: Seq<char>, extension: Seq<char>) -> bool {
    match path_extension(path) {
        Some(e) => ascii_lower_seq(e) == ascii_lower_seq(extension),
        None => false,
    }
}

fn last_dot(c: &Vec<char>, lo: usize, hi: usize) -> (r: Option<usize>)
    requires
        lo <= hi <= c@.len(),
    ensures
        r is None ==> last_index_of(c@.subrange(lo as int, hi as int), '.') == -1,
        r matches Some(k) ==> lo <= k < hi && last_index_of(c@.subrange(lo as int, hi as int), '.') == k - lo,
{
    let ghost t = c@.subrange(lo as int, hi as int);
    let mut m = hi;
    assert(t.take(m - lo) =~= t);
    while m > lo && c[m - 1] != '.'
        invariant
            lo <= m <= hi <= c@.len(),
            t == c@.subrange(lo as int, hi as int),
            last_index_of(t.take(m - lo), '.') == last_index_of(t, '.'),
        decreases m,
    {
        assert(t.take(m - lo).drop_last() =~= t.take(m - lo - 1));
        assert(t.take(m - lo).last() == c@[m - 1]);
        m -= 1;
    }
    if m == lo {
        assert(t.take(0) =~= Seq::<char>::empty());
        None
    } else {
        assert(t.take(m - lo).last() == c@[m - 1]);
        Some(m - 1)
    }
}

/// Whether `path` has extension `extension`, ignoring ASCII case.
pub fn has_extension(path: &str, extension: &str) -> (r: bool)
    ensures
        r == has_extension_spec(path@, extension@),
{
    let c = chars_of(path);
    let n = c.len();
    let t = strip_slashes_end(&c, n);
    proof {
        assert(c@.take(n as int) =~= path@);
    }
    if t == 0 {
        return false;
    }
    let start = match last_slash(&c, t) {
        Some(k) => k + 1,
        None => 0,
    };
    proof {
        let tt = c@.take(t as int);
        assert(tt.skip(last_slash_before(tt, tt.len() as int) + 1) =~= c@.subrange(start as int, t as int));
    }
    let name = string_from_range(&c, start, t);
    if crate::text::str_eq(name.as_str(), "..") {
        return false;
    }
    match last_dot(&c, start, t) {
        None => false,
        Some(k) => {
            if k == start {
                return false;
            }
            let ext = string_from_range(&c, k + 1, t);
            proof {
                let nm = c@.subrange(start as int, t as int);
                assert(nm.skip(k - start + 1) =~= c@.subrange(k + 1, t as int));
            }
            let a = ascii_lowercase(ext.as_str());
            let b = ascii_lowercase(extension);
            crate::text::str_eq(a.as_str(), b.as_str())
        },
    }
}

/// Whether the path names a PDF document.
pub fn is_pdf_path(path: &str) -> (r: bool)
    ensures
        r == has_extension_spec(path@, "pdf"@),
{
    has_extension(path, "pdf")
}

/// Whether the path names a DOCX document.
pub fn is_docx_path(path: &str) -> (r: bool)
    ensures
        r == has_extension_spec(path@, "docx"@),
{
    has_extension(path, "docx")
}

/// Why PDF text extraction failed.
#[derive(Debug, Clone, PartialEq, Eq)]
pub struct PdfExtractFailure {
    /// The document uses a security handler the extractor does not support.
    pub unsupported_security_handler: bool,
    /// The rendering of the extractor's error.
    pub message: String,
}

/// What the PDF libraries made of a document's bytes.
///
/// lopdf and pdf-extract panic on some malformed documents (unknown font
/// encodings, for one), so they run outside the library and hand over what
/// they found.
pub enum PdfOutcome {
    /// `Document::load_mem` could not parse the bytes: the rendering of its
    /// error.
    Unparsable(String),
    /// The document parsed and `Document::is_encrypted` holds.
    Encrypted,
    /// The document parsed and is not encrypted: what
    /// `extract_text_from_mem` gave.
    Extracted(Result<String, PdfExtractFailure>),
}

/// The DOCX failures that get their own explanation.
#[derive(Debug, Clone, PartialEq, Eq)]
pub enum DocxFailureKind {
    /// A required OOXML part is missing; the part's path.
    MissingPart(String),
    /// The format is not supported; the library's message.
    Unsupported(String),
    /// The document structure is invalid; the library's message.
    Structure(String),
    Other,
}

/// Why DOCX text extraction failed.
#[derive(Debug, Clone, PartialEq, Eq)]
pub struct DocxFailure {
    pub kind: DocxFailureKind,
    /// The rendering of the library's error.
    pub message: String,
}

/// The text `docx_lite::extract_text_from_bytes` extracts from a DOCX
/// document's bytes, `None` when it fails.
pub uninterp spec fn docx_text_extraction(bytes: Seq<u8>) -> Option<Seq<char>>;

/// Calls `docx_lite::extract_text_from_bytes`; an error is converted to its
/// variant, with the variant's text, and its rendering. Whether it succeeds,
/// and the text, are named by [`docx_text_extraction`]; what the error holds
/// is not stated.
#[verifier::external_body]
fn docx_extract_text(bytes: &[u8]) -> (r: Result<String, DocxFailure>)
    ensures
        r is Ok <==> docx_text_extraction(bytes@) is Some,
        r matches Ok(s) ==> docx_text_extraction(bytes@) == Some(s@),
{
    match docx_lite::extract_text_from_bytes(bytes) {
        Ok(s) => Ok(s),
        Err(e) => {
            let message = e.to_string();
            let kind = match e {
                docx_lite::DocxError::FileNotFound(p) => DocxFailureKind::MissingPart(p),
                docx_lite::DocxError::UnsupportedFormat(m) => DocxFailureKind::Unsupported(m),
                docx_lite::DocxError::Structure(m) => DocxFailureKind::Structure(m),
                _ => DocxFailureKind::Other,
            };
            Err(DocxFailure { kind, message })
        },
    }
}

/// `String::from_utf8`: it succeeds exactly on valid UTF-8, with the decoded
/// text; the error is rendered as text.
#[verifier::external_body]
fn string_from_utf8(bytes: Vec<u8>) -> (r: Result<String, String>)
    ensures
        r is Ok <==> valid_utf8(bytes@),
        r matches Ok(s) ==> s@ == decode_utf8(bytes@),
{
    match String::from_utf8(bytes) {
        Ok(s) => Ok(s),
        Err(e) => Err(e.to_string()),
    }
}

/// An `InvalidInput` error caused by `cause`, explained by `context`.
fn invalid_input(cause: String, context: String) -> (e: RagloomError)
    ensures
        e.kind == RagloomErrorKind::InvalidInput,
        e.contexts@ == seq![cause, context],
{
    RagloomError::new(RagloomErrorKind::InvalidInput, cause).with_context(context)
}

/// The error for bytes `lopdf` could not parse.
pub fn map_pdf_parse_error(message: String) -> (e: RagloomError)
    ensures
        e.kind == RagloomErrorKind::InvalidInput,
        e.contexts@.len() == 2,
        e.contexts@[0]@ == message@,
        e.contexts@[1]@ == "failed to parse PDF document bytes"@,
{
    invalid_input(message, owned("failed to parse PDF document bytes"))
}

/// The error for a failed PDF text extraction: an unsupported security
/// handler is named as such.
pub fn map_pdf_extract_error(failure: PdfExtractFailure) -> (e: RagloomError)
    ensures
        e.kind == RagloomErrorKind::InvalidInput,
        e.contexts@.len() == 2,
        e.contexts@[0]@ == failure.message@,
        failure.unsupported_security_handler ==> e.contexts@[1]@ == "unsupported PDF security handler prevents text extraction"@,
        !failure.unsupported_security_handler ==> e.contexts@[1]@ == "failed to extract PDF text from document bytes"@,
{
    let context = if failure.unsupported_security_handler {
        owned("unsupported PDF security handler prevents text extraction")
    } else {
        owned("failed to extract PDF text from document bytes")
    };
    invalid_input(failure.message, context)
}

/// The explanation of a DOCX failure.
pub open spec fn docx_context(k: DocxFailureKind) -> Seq<char> {
    match k {
        DocxFailureKind::MissingPart(p) => "DOCX is missing required OOXML part "@ + p@,
        DocxFailureKind::Unsupported(m) => "unsupported DOCX format prevents text extraction: "@ + m@,
        DocxFailureKind::Structure(m) => "invalid DOCX structure: "@ + m@,
        DocxFailureKind::Other => "failed to extract DOCX text from document bytes"@,
    }
}

/// The error for a failed DOCX text extraction.
pub fn map_docx_extract_error(failure: DocxFailure) -> (e: RagloomError)
    ensures
        e.kind == RagloomErrorKind::InvalidInput,
        e.contexts@.len() == 2,
        e.contexts@[0]@ == failure.message@,
        e.contexts@[1]@ == docx_context(failure.kind),
{
    let context = match &failure.kind {
        DocxFailureKind::MissingPart(p) => {
            let mut c = owned("DOCX is missing required OOXML part ");
            c.push_str(p.as_str());
            c
        },
        DocxFailureKind::Unsupported(m) => {
            let mut c = owned("unsupported DOCX format prevents text extraction: ");
            c.push_str(m.as_str());
            c
        },
        DocxFailureKind::Structure(m) => {
            let mut c = owned("invalid DOCX structure: ");
            c.push_str(m.as_str());
            c
        },
        DocxFailureKind::Other => owned("failed to extract DOCX text from document bytes"),
    };
    invalid_input(failure.message, context)
}

/// The explanation of a failed PDF text extraction.
pub open spec fn pdf_extract_context(unsupported_security_handler: bool) -> Seq<char> {
    if unsupported_security_handler {
        "unsupported PDF security handler prevents text extraction"@
    } else {
        "failed to extract PDF text from document bytes"@
    }
}

/// The text of a PDF given what the PDF libraries made of it: unparsable
/// bytes, encrypted documents and extraction failures are `InvalidInput`
/// errors; otherwise the extracted text.
pub fn extract_pdf_text(outcome: PdfOutcome) -> (r: Result<String, RagloomError>)
    ensures
        match outcome {
            PdfOutcome::Unparsable(m) => r matches Err(e) && e.kind == RagloomErrorKind::InvalidInput
                && e.contexts@.len() == 2 && e.contexts@[0]@ == m@
                && e.contexts@[1]@ == "failed to parse PDF document bytes"@,
            PdfOutcome::Encrypted => r matches Err(e) && e.kind == RagloomErrorKind::InvalidInput
                && e.contexts@.len() == 1 && e.contexts@[0]@ == "encrypted PDFs are not supported for text extraction"@,
            PdfOutcome::Extracted(Ok(t)) => r matches Ok(s) && s@ == t@,
            PdfOutcome::Extracted(Err(f)) => r matches Err(e) && e.kind == RagloomErrorKind::InvalidInput
                && e.contexts@.len() == 2 && e.contexts@[0]@ == f.message@
                && e.contexts@[1]@ == pdf_extract_context(f.unsupported_security_handler),
        },
{
    match outcome {
        PdfOutcome::Unparsable(m) => Err(map_pdf_parse_error(m)),
        PdfOutcome::Encrypted => Err(RagloomError::from_kind(RagloomErrorKind::InvalidInput).with_context(owned(
            "encrypted PDFs are not supported for text extraction",
        ))),
        PdfOutcome::Extracted(Ok(s)) => Ok(s),
        PdfOutcome::Extracted(Err(f)) => Err(map_pdf_extract_error(f)),
    }
}

/// The text of a DOCX document; failures are `InvalidInput` errors that
/// explain the failure after its rendering.
pub fn extract_docx_text(bytes: &[u8]) -> (r: Result<String, RagloomError>)
    ensures
        r is Ok <==> docx_text_extraction(bytes@) is Some,
        r matches Ok(s) ==> docx_text_extraction(bytes@) == Some(s@),
        r matches Err(e) ==> e.kind == RagloomErrorKind::InvalidInput && e.contexts@.len() == 2,
{
    match docx_extract_text(bytes) {
        Ok(s) => Ok(s),
        Err(f) => Err(map_docx_extract_error(f)),
    }
}

/// Where the text of a document comes from.
pub enum DocumentExtraction {
    /// The text, or why there is none.
    Done(Result<String, RagloomError>),
    /// The document is a PDF: its bytes, for [`extract_pdf_text`] once the
    /// PDF libraries have read them.
    Pdf(Vec<u8>),
}

/// The text of a document: a PDF (by extension, ignoring case) is handed back
/// for the PDF libraries, a DOCX goes through its extractor, and anything else
/// must be valid UTF-8 and is decoded.
pub fn extract_document_text(path: &str, bytes: Vec<u8>) -> (r: DocumentExtraction)
    ensures
        has_extension_spec(path@, "pdf"@) ==> (r matches DocumentExtraction::Pdf(b) && b@ == bytes@),
        !has_extension_spec(path@, "pdf"@) ==> (r matches DocumentExtraction::Done(t) && (t matches Err(e) ==> e.kind
            == RagloomErrorKind::InvalidInput)),
        !has_extension_spec(path@, "pdf"@) && has_extension_spec(path@, "docx"@) ==> (r matches DocumentExtraction::Done(t)
            && (t is Ok <==> docx_text_extraction(bytes@) is Some)
            && (t matches Ok(s) ==> docx_text_extraction(bytes@) == Some(s@))),
        !has_extension_spec(path@, "pdf"@) && !has_extension_spec(path@, "docx"@) ==> (r matches DocumentExtraction::Done(t)
            && (t is Ok <==> valid_utf8(bytes@))
            && (t matches Ok(s) ==> s@ == decode_utf8(bytes@))
            && (t matches Err(e) ==> e.contexts@.len() == 2 && e.contexts@[1]@ == "failed to extract UTF-8 text from document bytes"@)),
{
    if is_pdf_path(path) {
        return DocumentExtraction::Pdf(bytes);
    }
    if is_docx_path(path) {
        return DocumentExtraction::Done(extract_docx_text(bytes.as_slice()));
    }
    match string_from_utf8(bytes) {
        Ok(s) => DocumentExtraction::Done(Ok(s)),
        Err(m) => DocumentExtraction::Done(Err(invalid_input(m, owned("failed to extract UTF-8 text from document bytes")))),
    }
}

} // verus!
