//! Signed-PDF verification and text extraction.
//!
//! The crate answers two independent questions about the raw bytes of a PDF
//! document: whether its embedded PKCS#7 signature is valid over the signed
//! byte ranges, and what text each page shows.
use vstd::prelude::*;

pub mod asn1;
pub mod bytes;
pub mod cmap;
pub mod der;
pub mod document;
pub mod error;
pub mod font;
pub mod lexer;
pub mod logger;
pub mod number;
pub mod object;
pub mod page;
pub mod pagetree;
pub mod parser;
pub mod pkcs7;
pub mod reachable;
pub mod report;
pub mod rsa_verify;
pub mod signature;
pub mod signed_bytes;
pub mod stream;
pub mod text;
pub mod token;

use crate::document::{parse_pdf, spec_catalog, spec_parse_pdf};
use crate::error::PdfError;
use crate::object::{ObjectTable, Value};
use crate::page::{Page, page_models, PageContent};
use crate::pagetree::{Fault, fault_of};
use crate::reachable::{
    lemma_pages_are_the_reachable_page_nodes, page_tree_root, reachable_pages,
};
use crate::signature::{spec_verify_pdf_signature, verify_pdf_signature};
use crate::text::{extract_text_from_page_content, spec_page_text};

verus! {

/// What is known of a document: whether its signature holds, and the text of
/// its pages.
pub struct PdfValidationResult {
    pub signature_valid: bool,
    pub text_pages: Vec<String>,
}

/// The characters of a run of strings.
pub open spec fn texts(strings: Seq<String>) -> Seq<Seq<char>> {
    Seq::new(strings.len(), |i: int| strings[i]@)
}

/// The text of every page, in the order of the pages.
pub open spec fn spec_document_text(pages: Seq<Page>, table: Map<u64, Value>) -> Seq<Seq<char>> {
    Seq::new(pages.len(), |i: int| spec_page_text(pages[i], table))
}

/// The text of a page.
pub fn extract_text_from_page(page: &PageContent, objects: &ObjectTable) -> (r: String)
    ensures
        r@ == spec_page_text(page.model(), objects.model()),
{
    extract_text_from_page_content(page, objects)
}

/// The text of every page of a document.
pub fn extract_text_from_document(pages: &Vec<PageContent>, objects: &ObjectTable) -> (r: Result<
    Vec<String>,
    String,
>)
    ensures
        r is Ok,
        texts(r->Ok_0@) == spec_document_text(page_models(pages@), objects.model()),
{
    let mut results: Vec<String> = Vec::new();
    let mut i: usize = 0;
    while i < pages.len()
        invariant
            i <= pages.len(),
            results@.len() == i,
            forall|j: int|
                0 <= j < i ==> (#[trigger] results@[j])@ == spec_page_text(
                    pages@[j].model(),
                    objects.model(),
                ),
        decreases pages.len() - i,
    {
        results.push(extract_text_from_page(&pages[i], objects));
        i += 1;
    }
    assert(texts(results@) =~= spec_document_text(page_models(pages@), objects.model()));
    Ok(results)
}

/// The text of the pages of a PDF file.
pub open spec fn spec_extract_text(pdf: Seq<u8>) -> Result<Seq<Seq<char>>, Fault> {
    match spec_parse_pdf(pdf) {
        Ok((pages, table)) => Ok(spec_document_text(pages, table)),
        Err(f) => Err(f),
    }
}

/// The value of the outcome of text extraction.
pub open spec fn text_result(r: Result<Vec<String>, PdfError>) -> Result<Seq<Seq<char>>, Fault> {
    match r {
        Ok(v) => Ok(texts(v@)),
        Err(e) => Err(fault_of(e)),
    }
}

/// Extracts the text of every page of a PDF file.
pub fn extract_text(pdf_bytes: Vec<u8>) -> (r: Result<Vec<String>, PdfError>)
    ensures
        text_result(r) == spec_extract_text(pdf_bytes@),
{
    let (pages, objects) = match parse_pdf(pdf_bytes.as_slice()) {
        Ok(parsed) => parsed,
        Err(e) => {
            return Err(e);
        },
    };
    match extract_text_from_document(&pages, &objects) {
        Ok(text) => Ok(text),
        Err(message) => Err(PdfError::ParseError(message)),
    }
}

/// The pages of a PDF file: the `Page` nodes that the walk of its page tree
/// comes to, in the order of the walk.
pub open spec fn pages_of(pdf: Seq<u8>) -> Seq<Page>
    recommends
        spec_parse_pdf(pdf) is Ok,
{
    (spec_parse_pdf(pdf)->Ok_0).0
}

/// The objects of a PDF file.
pub open spec fn objects_of(pdf: Seq<u8>) -> Map<u64, Value>
    recommends
        spec_parse_pdf(pdf) is Ok,
{
    (spec_parse_pdf(pdf)->Ok_0).1
}

/// The `Page` nodes of a PDF file that are reachable from the root of its
/// page tree, by their keys in the object table.
pub open spec fn reachable_page_nodes(pdf: Seq<u8>) -> Set<u64>
    recommends
        spec_parse_pdf(pdf) is Ok,
{
    reachable_pages(objects_of(pdf), page_tree_root(objects_of(pdf), spec_catalog(pdf)->0))
}

/// Whether the signature of a PDF holds.
fn signature_holds(pdf_bytes: &[u8]) -> (r: bool)
    ensures
        r == (spec_verify_pdf_signature(pdf_bytes@) == Some(true)),
{
    match verify_pdf_signature(pdf_bytes) {
        Ok(valid) => valid,
        Err(_) => false,
    }
}

/// The text of the pages, or the message of the failure.
fn text_or_message(pdf_bytes: &[u8]) -> (r: Result<Vec<String>, String>)
    ensures
        match spec_extract_text(pdf_bytes@) {
            Ok(pages) => r is Ok && texts(r->Ok_0@) == pages,
            Err(_) => r is Err,
        },
{
    match extract_text(vstd::slice::slice_to_vec(pdf_bytes)) {
        Ok(pages) => Ok(pages),
        Err(e) => Err(String::from_str("Text extraction failed: ").concat(e.describe().as_str())),
    }
}

/// Verifies the signature of a PDF and extracts the text of its pages.
///
/// The two answers are independent: a signature that is missing, cannot be
/// read or does not hold makes `signature_valid` false and leaves the text
/// as it is. Only a failure of text extraction is an error.
pub fn validate_and_extract_pdf(pdf_bytes: &[u8]) -> (r: Result<PdfValidationResult, String>)
    ensures
        match spec_extract_text(pdf_bytes@) {
            Ok(pages) => {
                &&& r is Ok
                &&& texts(r->Ok_0.text_pages@) == pages
                &&& r->Ok_0.text_pages@.len() == pages_of(pdf_bytes@).len()
                &&& r->Ok_0.text_pages@.len() == reachable_page_nodes(pdf_bytes@).len()
                &&& r->Ok_0.signature_valid == (spec_verify_pdf_signature(pdf_bytes@) == Some(true))
            },
            Err(_) => r is Err,
        },
{
    let signature_valid = signature_holds(pdf_bytes);
    let text_pages = match text_or_message(pdf_bytes) {
        Ok(pages) => pages,
        Err(message) => {
            return Err(message);
        },
    };
    proof {
        lemma_one_text_per_page(pdf_bytes@);
        assert(texts(text_pages@).len() == text_pages@.len());
    }
    Ok(PdfValidationResult { signature_valid, text_pages })
}

/// A document gives one text for each page that the walk of its page tree
/// comes to, and these are as many as the page tree has `Page` nodes that
/// are reachable from its root.
pub proof fn lemma_one_text_per_page(pdf: Seq<u8>)
    requires
        spec_extract_text(pdf) is Ok,
    ensures
        spec_parse_pdf(pdf) is Ok,
        spec_extract_text(pdf)->Ok_0.len() == pages_of(pdf).len(),
        spec_extract_text(pdf)->Ok_0.len() == reachable_page_nodes(pdf).len(),
{
    lemma_pages_are_the_reachable_page_nodes(objects_of(pdf), spec_catalog(pdf)->0);
}

} // verus!
