//! Import pipeline: parsers that turn a file payload into a tree of
//! documents for the caller to insert under a project.
use vstd::prelude::*;

use crate::error::AppResult;

pub mod docx;
pub mod markdown;

use crate::text::{ascii_lower_str, chars_of, chars_eq, to_ascii_lower};

verus! {

/// The formats a file can be imported from.
#[derive(Debug, Clone, Copy, PartialEq, Eq, Structural)]
pub enum ImportFormat {
    Markdown,
    Docx,
}

/// The format a file extension names, ASCII case-insensitively.
pub open spec fn format_of_extension(ext: Seq<char>) -> Option<ImportFormat> {
    let e = ascii_lower_str(ext);
    if e == "md"@ || e == "markdown"@ {
        Some(ImportFormat::Markdown)
    } else if e == "docx"@ {
        Some(ImportFormat::Docx)
    } else {
        None
    }
}

/// ASCII lower-casing of a character vector.
pub fn ascii_lower_chars(v: &Vec<char>) -> (r: Vec<char>)
    ensures
        r@ == ascii_lower_str(v@),
{
    let mut r: Vec<char> = Vec::new();
    let mut i: usize = 0;
    while i < v.len()
        invariant
            i <= v@.len(),
            r@ == ascii_lower_str(v@.take(i as int)),
        decreases v@.len() - i,
    {
        r.push(to_ascii_lower(v[i]));
        assert(ascii_lower_str(v@.take(i + 1)) =~= ascii_lower_str(v@.take(i as int)).push(
            crate::text::ascii_lower(v@[i as int]),
        ));
        i += 1;
    }
    assert(v@.take(v@.len() as int) =~= v@);
    r
}

impl ImportFormat {
    /// The format of a file extension (`md`, `markdown`, `docx`, any ASCII
    /// case).
    pub fn from_extension(ext: &str) -> (r: Option<ImportFormat>)
        ensures
            r == format_of_extension(ext@),
    {
        let e = ascii_lower_chars(&chars_of(ext));
        if chars_eq(&e, &chars_of("md")) || chars_eq(&e, &chars_of("markdown")) {
            Some(ImportFormat::Markdown)
        } else if chars_eq(&e, &chars_of("docx")) {
            Some(ImportFormat::Docx)
        } else {
            None
        }
    }
}

/// A node of an imported document tree.
#[derive(Debug, PartialEq, Eq)]
pub struct ImportNode {
    pub title: String,
    pub content_html: String,
    pub children: Vec<ImportNode>,
}

/// The result of an import: the title the payload suggests and the tree.
#[derive(Debug, PartialEq, Eq)]
pub struct ImportTree {
    pub project_title: String,
    pub nodes: Vec<ImportNode>,
}

/// The importer of the desktop app.
#[derive(Debug, Default, Clone, Copy)]
pub struct LocalImporter;

/// Turns file payloads into document trees.
pub trait ImportService {
    /// The formats this importer reads.
    fn supported_formats(&self) -> Vec<ImportFormat>;

    /// Parse a payload; `filename_hint` names the project when the payload
    /// does not.
    fn import(&self, format: ImportFormat, bytes: &[u8], filename_hint: &str) -> AppResult<ImportTree>;
}

impl ImportService for LocalImporter {
    /// Markdown and DOCX.
    fn supported_formats(&self) -> (r: Vec<ImportFormat>)
        ensures
            r@ == seq![ImportFormat::Markdown, ImportFormat::Docx],
    {
        let mut v: Vec<ImportFormat> = Vec::new();
        v.push(ImportFormat::Markdown);
        v.push(ImportFormat::Docx);
        v
    }

    /// Import a payload with the importer of its format.
    fn import(&self, format: ImportFormat, bytes: &[u8], filename_hint: &str) -> (r: AppResult<ImportTree>)
        ensures
            format == ImportFormat::Markdown ==> (r matches Ok(t) && markdown::markdown_import(
                bytes@,
                filename_hint@,
                t,
            )),
            format == ImportFormat::Docx ==> docx::docx_import(bytes@, filename_hint@, r),
    {
        match format {
            ImportFormat::Markdown => markdown::import(bytes, filename_hint),
            ImportFormat::Docx => docx::import(bytes, filename_hint),
        }
    }
}

} // verus!
