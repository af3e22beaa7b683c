//! Export pipeline: format-agnostic compile passes and the renderers.
use vstd::prelude::*;

pub mod compile;
pub mod config;
pub mod docx;
pub mod docx_helpers;
pub mod epub;
pub mod footnotes;
pub mod markdown;
pub mod media_bundle;
pub mod pdf;
pub mod util;

pub use config::{
    settings_key as export_config_settings_key, ExportConfig, Margins, PageSize, SceneSeparator,
};
pub use media_bundle::{extract_media_ids, MediaBundle};

use crate::domain::{CodexEntry, DocNode, Project};
use crate::error::{AppError, AppResult};
use crate::segments::utf8_encode;

verus! {

/// The formats a project can be exported to.
#[derive(Debug, Clone, Copy, PartialEq, Eq, Structural)]
pub enum ExportFormat {
    Markdown,
    Docx,
    Epub,
    Pdf,
}

/// File extension of a format; PDF is emitted as a print-ready HTML page.
pub open spec fn format_extension(f: ExportFormat) -> Seq<char> {
    match f {
        ExportFormat::Markdown => "md"@,
        ExportFormat::Docx => "docx"@,
        ExportFormat::Epub => "epub"@,
        ExportFormat::Pdf => "html"@,
    }
}

/// MIME type of a format's output.
pub open spec fn format_mime(f: ExportFormat) -> Seq<char> {
    match f {
        ExportFormat::Markdown => "text/markdown"@,
        ExportFormat::Docx => "application/vnd.openxmlformats-officedocument.wordprocessingml.document"@,
        ExportFormat::Epub => "application/epub+zip"@,
        ExportFormat::Pdf => "text/html"@,
    }
}

impl ExportFormat {
    /// File extension of the output.
    pub fn extension(&self) -> (r: &'static str)
        ensures
            r@ == format_extension(*self),
    {
        match self {
            ExportFormat::Markdown => "md",
            ExportFormat::Docx => "docx",
            ExportFormat::Epub => "epub",
            ExportFormat::Pdf => "html",
        }
    }

    /// MIME type of the output.
    pub fn mime(&self) -> (r: &'static str)
        ensures
            r@ == format_mime(*self),
    {
        match self {
            ExportFormat::Markdown => "text/markdown",
            ExportFormat::Docx => "application/vnd.openxmlformats-officedocument.wordprocessingml.document",
            ExportFormat::Epub => "application/epub+zip",
            ExportFormat::Pdf => "text/html",
        }
    }
}

/// The exporter of the desktop app.
#[derive(Debug, Default, Clone, Copy)]
pub struct LocalExporter;

/// Renders projects to files.
pub trait ExportService {
    /// The formats this exporter writes.
    fn supported_formats(&self) -> Vec<ExportFormat>;

    /// Render a project, its documents, codex and media in a format.
    fn export(
        &self,
        project: &Project,
        documents: &[DocNode],
        codex: &[CodexEntry],
        media: &MediaBundle,
        format: ExportFormat,
        config: &ExportConfig,
    ) -> AppResult<Vec<u8>>
        requires
            documents@.len() < usize::MAX,
            pdf::media_fits(media@),
            pdf::contents_fit(documents@),
    ;
}

impl ExportService for LocalExporter {
    /// Every format, in menu order.
    fn supported_formats(&self) -> (r: Vec<ExportFormat>)
        ensures
            r@ == seq![ExportFormat::Markdown, ExportFormat::Docx, ExportFormat::Epub, ExportFormat::Pdf],
    {
        let mut v: Vec<ExportFormat> = Vec::new();
        v.push(ExportFormat::Markdown);
        v.push(ExportFormat::Docx);
        v.push(ExportFormat::Epub);
        v.push(ExportFormat::Pdf);
        v
    }

    /// Render the project in the requested format: Markdown and the
    /// print page always succeed with their text as UTF-8; DOCX and EPUB
    /// give what their renderers give (`docx_export`, `epub_export`).
    fn export(
        &self,
        project: &Project,
        documents: &[DocNode],
        codex: &[CodexEntry],
        media: &MediaBundle,
        format: ExportFormat,
        config: &ExportConfig,
    ) -> (r: AppResult<Vec<u8>>)
        ensures
            format == ExportFormat::Markdown ==> (r matches Ok(b) && b@ == utf8_encode(
                markdown::markdown_text(*project, documents@),
            )),
            format == ExportFormat::Pdf ==> (r matches Ok(b) && b@ == utf8_encode(
                pdf::pdf_html(*project, documents@, codex@, media@, *config),
            )),
            format == ExportFormat::Docx ==> docx::docx_export(*project, documents@, codex@, *config, r),
            format == ExportFormat::Epub ==> epub::epub_export(*project, documents@, r),
    {
        match format {
            ExportFormat::Markdown => markdown::render(project, documents, config),
            ExportFormat::Docx => docx::render(project, documents, codex, media, config),
            ExportFormat::Epub => epub::render(project, documents),
            ExportFormat::Pdf => pdf::render(project, documents, codex, media, config),
        }
    }
}

} // verus!
