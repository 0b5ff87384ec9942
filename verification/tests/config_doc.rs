use ragloom::config::{default_state_path, EmbedConfig, PipelineConfig, SinkConfig, SourceConfig, StateConfig};
use ragloom::doc::{
    extract_docx_text, extract_document_text, extract_pdf_text, has_extension, DocumentExtraction, PdfOutcome, is_docx_path, is_pdf_path, map_docx_extract_error, map_pdf_extract_error,
    map_pdf_parse_error, DocxFailure, DocxFailureKind, PdfExtractFailure,
};
use ragloom::RagloomErrorKind;

fn config() -> PipelineConfig {
    PipelineConfig {
        source: SourceConfig { root: "/data".to_string() },
        embed: EmbedConfig { endpoint: "http://embed".to_string() },
        sink: SinkConfig { qdrant_url: "http://qdrant".to_string(), collection: "docs".to_string() },
        state: StateConfig::default(),
    }
}

#[test]
fn complete_config_validates() {
    let cfg = config();
    assert_eq!(cfg.state.path, ".ragloom/wal.ndjson");
    assert_eq!(default_state_path(), ".ragloom/wal.ndjson");
    assert!(cfg.validate().is_ok());
}

#[test]
fn first_blank_field_is_reported() {
    let mut cfg = config();
    cfg.sink.collection = " ".to_string();
    cfg.state.path = String::new();
    let err = cfg.validate().expect_err("blank collection");
    assert_eq!(err.kind, RagloomErrorKind::Config);
    assert_eq!(err.contexts, vec!["sink.collection is empty".to_string()]);
    cfg.source.root = "\t".to_string();
    let err = cfg.validate().expect_err("blank root");
    assert_eq!(err.contexts, vec!["source.root is empty".to_string()]);
}

#[test]
fn extensions_are_matched_ignoring_ascii_case() {
    assert!(is_pdf_path("/x/report.PDF"));
    assert!(is_docx_path("notes.Docx"));
    assert!(!is_pdf_path("/x/.pdf"));
    assert!(!is_pdf_path("/x/pdf"));
    assert!(has_extension("/x/a.tar.gz/", "GZ"));
    assert!(!has_extension("/x/..", ""));
}

fn read_pdf(bytes: &[u8]) -> PdfOutcome {
    let document = match pdf_extract::Document::load_mem(bytes) {
        Ok(d) => d,
        Err(e) => return PdfOutcome::Unparsable(e.to_string()),
    };
    if document.is_encrypted() {
        return PdfOutcome::Encrypted;
    }
    PdfOutcome::Extracted(
        pdf_extract::extract_text_from_mem(bytes)
            .map_err(|e| PdfExtractFailure { unsupported_security_handler: false, message: e.to_string() }),
    )
}

fn document_text(path: &str, bytes: Vec<u8>) -> Result<String, ragloom::RagloomError> {
    match extract_document_text(path, bytes) {
        DocumentExtraction::Done(t) => t,
        DocumentExtraction::Pdf(b) => extract_pdf_text(read_pdf(&b)),
    }
}

fn minimal_pdf_bytes(stream: &str) -> Vec<u8> {
    let objects = [
        "1 0 obj\n<< /Type /Catalog /Pages 2 0 R >>\nendobj\n".to_string(),
        "2 0 obj\n<< /Type /Pages /Count 1 /Kids [3 0 R] >>\nendobj\n".to_string(),
        "3 0 obj\n<< /Type /Page /Parent 2 0 R /MediaBox [0 0 300 144] /Contents 4 0 R /Resources << /Font << /F1 5 0 R >> >> >>\nendobj\n".to_string(),
        format!("4 0 obj\n<< /Length {} >>\nstream\n{stream}endstream\nendobj\n", stream.len()),
        "5 0 obj\n<< /Type /Font /Subtype /Type1 /BaseFont /Helvetica >>\nendobj\n".to_string(),
    ];
    let mut pdf = String::from("%PDF-1.4\n");
    let mut offsets = vec![0usize];
    for object in &objects {
        offsets.push(pdf.len());
        pdf.push_str(object);
    }
    let xref_offset = pdf.len();
    pdf.push_str("xref\n0 6\n");
    pdf.push_str("0000000000 65535 f \n");
    for offset in offsets.iter().skip(1) {
        pdf.push_str(&format!("{offset:010} 00000 n \n"));
    }
    pdf.push_str("trailer\n<< /Root 1 0 R /Size 6 >>\n");
    pdf.push_str(&format!("startxref\n{xref_offset}\n%%EOF\n"));
    pdf.into_bytes()
}

#[test]
fn pdf_paths_are_handed_back_for_the_pdf_libraries() {
    match extract_document_text("/x/A.PDF", vec![1, 2, 3]) {
        DocumentExtraction::Pdf(b) => assert_eq!(b, vec![1, 2, 3]),
        DocumentExtraction::Done(_) => panic!("expected the PDF branch"),
    }
}

#[test]
fn pdf_text_is_extracted() {
    let text = document_text("/x/hello.pdf", minimal_pdf_bytes("BT\n/F1 18 Tf\n50 100 Td\n(Hello PDF) Tj\nET\n"));
    assert_eq!(text.expect("pdf"), "\n\nHello PDF");
    let empty = document_text("/x/empty.pdf", minimal_pdf_bytes(""));
    assert_eq!(empty.expect("empty pdf"), "");
}

#[test]
fn pdf_outcomes_are_explained() {
    let e = extract_pdf_text(PdfOutcome::Encrypted).expect_err("encrypted");
    assert_eq!(e.kind, RagloomErrorKind::InvalidInput);
    assert_eq!(e.contexts, vec!["encrypted PDFs are not supported for text extraction".to_string()]);
    let e = extract_pdf_text(PdfOutcome::Unparsable("bad".to_string())).expect_err("unparsable");
    assert_eq!(e.contexts, vec!["bad".to_string(), "failed to parse PDF document bytes".to_string()]);
    let t = extract_pdf_text(PdfOutcome::Extracted(Ok("x".to_string()))).expect("text");
    assert_eq!(t, "x");
    let e = extract_pdf_text(PdfOutcome::Extracted(Err(PdfExtractFailure {
        unsupported_security_handler: true,
        message: "m".to_string(),
    })))
    .expect_err("failed");
    assert_eq!(e.contexts[1], "unsupported PDF security handler prevents text extraction");
}

#[test]
fn plain_documents_must_be_utf8() {
    let text = document_text("/x/a.txt", "héllo".as_bytes().to_vec()).expect("utf8");
    assert_eq!(text, "héllo");
    let err = document_text("/x/a.txt", vec![0xff, 0xfe]).expect_err("not utf8");
    assert_eq!(err.kind, RagloomErrorKind::InvalidInput);
    assert_eq!(err.contexts.len(), 2);
    assert_eq!(err.contexts[1], "failed to extract UTF-8 text from document bytes");
}

#[test]
fn malformed_pdf_bytes_are_invalid_input() {
    let err = document_text("/x/a.pdf", b"%PDF-1.4\nnot a real pdf\n".to_vec()).expect_err("bad pdf");
    assert_eq!(err.kind, RagloomErrorKind::InvalidInput);
    assert_eq!(err.contexts.last().map(String::as_str), Some("failed to parse PDF document bytes"));
}

#[test]
fn malformed_docx_bytes_are_invalid_input() {
    let err = document_text("/x/a.docx", b"not a zip".to_vec()).expect_err("bad docx");
    assert_eq!(err.kind, RagloomErrorKind::InvalidInput);
    assert_eq!(err.contexts.len(), 2);
}

#[test]
fn extraction_failures_are_explained() {
    let e = map_pdf_parse_error("bad header".to_string());
    assert_eq!(e.contexts, vec!["bad header".to_string(), "failed to parse PDF document bytes".to_string()]);
    let e = map_pdf_extract_error(PdfExtractFailure { unsupported_security_handler: true, message: "m".to_string() });
    assert_eq!(e.contexts[1], "unsupported PDF security handler prevents text extraction");
    let e = map_pdf_extract_error(PdfExtractFailure { unsupported_security_handler: false, message: "m".to_string() });
    assert_eq!(e.contexts[1], "failed to extract PDF text from document bytes");
    let e = map_docx_extract_error(DocxFailure {
        kind: DocxFailureKind::MissingPart("word/document.xml".to_string()),
        message: "m".to_string(),
    });
    assert_eq!(e.contexts[1], "DOCX is missing required OOXML part word/document.xml");
    let e = map_docx_extract_error(DocxFailure { kind: DocxFailureKind::Other, message: "m".to_string() });
    assert_eq!(e.message(), "invalid_input: failed to extract DOCX text from document bytes: m");
}

#[test]
fn docx_extraction_rejects_bytes_that_are_not_a_zip() {
    let err = extract_docx_text(b"not a zip archive").expect_err("bad docx");
    assert_eq!(err.kind, RagloomErrorKind::InvalidInput);
    assert_eq!(err.contexts.len(), 2);
}
