//! The top-level handle: a loaded document behind one constructor.

use vstd::prelude::*;

use crate::document::{from_bytes, Document};
use crate::error::PdfError;

verus! {

/// A loaded file.
#[derive(Debug)]
pub struct Pdf {
    pub document: Document,
}

impl Pdf {
    /// Loads a file from its raw bytes.
    pub fn from_bytes(input: &[u8]) -> (r: Result<Pdf, PdfError>)
        ensures
            match r {
                Ok(pdf) => {
                    &&& pdf.document.wf()
                    &&& crate::xref::spec_xref_accurate(input@, pdf.document.xref)
                    &&& forall|i: int|
                        0 <= i < pdf.document.objects@.len()
                            ==> crate::object::spec_object_content_from(
                            input@,
                            #[trigger] pdf.document.objects@[i].1,
                        )
                    &&& crate::xref::spec_primary_ok(
                        input@,
                        pdf.document.xref,
                        pdf.document.trailer,
                    ) || (crate::xref::spec_primary_err(input@)
                        && crate::xref::spec_fallback_ok(
                        input@,
                        pdf.document.xref,
                        pdf.document.trailer,
                    ))
                    &&& crate::document::spec_objects_from_xref(
                        input@,
                        pdf.document.xref,
                        pdf.document.objects@,
                    )
                    &&& crate::document::spec_objects_complete(
                        input@,
                        pdf.document.xref,
                        pdf.document.objects@,
                    )
                },
                Err(_) => crate::document::spec_version_absent(input@) || (
                crate::xref::spec_primary_err(input@) && crate::xref::spec_fallback_err(input@)),
            },
    {
        match from_bytes(input) {
            Ok(document) => Ok(Pdf { document }),
            Err(e) => Err(e),
        }
    }

    /// The loaded document.
    pub fn document(&self) -> (r: &Document)
        ensures
            *r == self.document,
    {
        &self.document
    }
}

} // verus!
