//! The configuration record that binds the passes together. The host
//! CommonMark machinery parses and renders; around it, this record decides
//! what the safety filter removes, whether the validator runs and against
//! which file set, and which extension the wiki-link renderer appends.

use vstd::prelude::*;

use crate::canon::canon_spec;
use crate::safe::FilterUnsafe;
use crate::safe::filter_by_mask;
use crate::safe::mask_filter_spec;
use crate::validate_links::Diagnostic;
use crate::validate_links::FileSet;
use crate::validate_links::LinkRef;
use crate::validate_links::diag_views;
use crate::validate_links::diags_spec;
use crate::validate_links::ref_views;
use crate::validate_links::resolves;
use crate::wikilinks::WikiLink;

verus! {

/// What a pipeline is built with: whether unsafe regions are elided or only
/// the markers erased, the file set the validator checks against (absent
/// means validation is disabled), and the extension the wiki-link renderer
/// appends. Immutable for the lifetime of a pipeline.
pub struct PipelineConfig {
    pub filter_unsafe: bool,
    pub files: Option<FileSet>,
    pub output_extension: Vec<u8>,
}

impl PipelineConfig {
    /// The safety filter pass this configuration runs.
    pub fn filter_pass(&self) -> (f: FilterUnsafe)
        ensures
            f.enabled == self.filter_unsafe,
    {
        FilterUnsafe { enabled: self.filter_unsafe }
    }

    /// Runs the safety filter over the top-level blocks of a document,
    /// given which of them are markers: markers always go; other blocks
    /// stay exactly when they are visible under this configuration.
    pub fn run_filter<T>(&self, children: Vec<T>, markers: &Vec<bool>) -> (r: Vec<T>)
        requires
            children@.len() == markers@.len(),
        ensures
            r@ == mask_filter_spec(
                children@,
                (FilterUnsafe { enabled: self.filter_unsafe }).keep_seq(markers@),
            ),
    {
        let f = self.filter_pass();
        let keep = f.keep_mask(markers);
        filter_by_mask(children, &keep)
    }

    /// Runs the validator over the references collected from a document,
    /// when this configuration has a file set; with none, validation is
    /// disabled and no diagnostic is produced.
    pub fn run_validator(&self, refs: &Vec<LinkRef>) -> (diags: Vec<Diagnostic>)
        ensures
            self.files matches Some(fs) ==> diag_views(diags@) == diags_spec(
                ref_views(refs@),
                fs,
            ),
            self.files matches Some(fs) ==> (diags@.len() == 0 <==> (forall|i: int|
                0 <= i < refs@.len() ==> resolves(#[trigger] refs@[i]@, fs))),
            self.files is None ==> diags@.len() == 0,
    {
        match &self.files {
            Some(fs) => crate::validate_links::validate(refs, fs),
            None => Vec::new(),
        }
    }

    /// The path a wiki link renders to under this configuration.
    pub fn href_for(&self, link: &WikiLink) -> (r: Vec<u8>)
        ensures
            r@ == canon_spec(link.file@, self.output_extension@),
    {
        link.href(self.output_extension.as_slice())
    }
}

} // verus!
