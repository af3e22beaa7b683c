//! User-tunable export options. Persisted per project in the settings
//! table under `export_config:<project_id>`. The renderers take an
//! `&ExportConfig`; callers that do not care pass `ExportConfig::default()`.
use vstd::prelude::*;
use vstd::string::*;

verus! {

/// A literal find&replace rule applied at compile time.
#[derive(Debug, Clone, PartialEq, Eq)]
pub struct FindReplaceRule {
    pub pattern: String,
    pub replacement: String,
}

/// Paper size of paged formats.
#[derive(Debug, Clone, PartialEq, Eq)]
pub enum PageSize {
    A4,
    Letter,
    Legal,
    Custom { width_mm: u32, height_mm: u32 },
}

impl Default for PageSize {
    fn default() -> (r: Self)
        ensures
            r == PageSize::A4,
    {
        PageSize::A4
    }
}

/// Page margins in millimetres.
#[derive(Debug, Clone, Copy, PartialEq, Eq)]
pub struct Margins {
    pub top_mm: u32,
    pub right_mm: u32,
    pub bottom_mm: u32,
    pub left_mm: u32,
}

impl Default for Margins {
    /// 25 mm on every side.
    fn default() -> (r: Self)
        ensures
            r.top_mm == 25 && r.right_mm == 25 && r.bottom_mm == 25 && r.left_mm == 25,
    {
        Margins { top_mm: 25, right_mm: 25, bottom_mm: 25, left_mm: 25 }
    }
}

/// What separates top-level documents in the flowing formats.
#[derive(Debug, Clone, PartialEq, Eq)]
pub enum SceneSeparator {
    Stars,
    Dashes,
    Blank,
    Custom(String),
}

impl Default for SceneSeparator {
    fn default() -> (r: Self)
        ensures
            r == SceneSeparator::Stars,
    {
        SceneSeparator::Stars
    }
}

/// Plain-text form of a separator.
pub open spec fn separator_text(s: SceneSeparator) -> Seq<char> {
    match s {
        SceneSeparator::Stars => "* * *"@,
        SceneSeparator::Dashes => "---"@,
        SceneSeparator::Blank => ""@,
        SceneSeparator::Custom(t) => t@,
    }
}

impl SceneSeparator {
    /// Plain-text form used as a paragraph between top-level documents.
    pub fn as_text(&self) -> (r: &str)
        ensures
            r@ == separator_text(*self),
    {
        match self {
            SceneSeparator::Stars => "* * *",
            SceneSeparator::Dashes => "---",
            SceneSeparator::Blank => "",
            SceneSeparator::Custom(s) => s.as_str(),
        }
    }
}

/// Export options.
#[derive(Debug, Clone, PartialEq, Eq)]
pub struct ExportConfig {
    /// Overrides the project title on the title page and cover.
    pub title_override: Option<String>,
    pub author: Option<String>,
    /// Font family hint for formats that honour it (DOCX, EPUB CSS).
    pub font_family: Option<String>,
    pub page_size: PageSize,
    pub margins: Margins,
    pub include_toc: bool,
    pub include_title_page: bool,
    pub scene_separator: SceneSeparator,
    /// Path to a cover image (EPUB only).
    pub cover_image_path: Option<String>,
    /// Append a codex appendix grouped by kind.
    pub include_codex: bool,
    /// Keep research documents and their subtrees.
    pub include_research: bool,
}

impl Default for ExportConfig {
    /// Table of contents and title page on, A4 with 25 mm margins, stars
    /// between scenes, no codex, no research, no overrides.
    fn default() -> (r: Self)
        ensures
            r.title_override is None,
            r.author is None,
            r.font_family is None,
            r.page_size == PageSize::A4,
            r.margins == (Margins { top_mm: 25, right_mm: 25, bottom_mm: 25, left_mm: 25 }),
            r.include_toc,
            r.include_title_page,
            r.scene_separator == SceneSeparator::Stars,
            r.cover_image_path is None,
            !r.include_codex,
            !r.include_research,
    {
        ExportConfig {
            title_override: None,
            author: None,
            font_family: None,
            page_size: PageSize::default(),
            margins: Margins::default(),
            include_toc: true,
            include_title_page: true,
            scene_separator: SceneSeparator::default(),
            cover_image_path: None,
            include_codex: false,
            include_research: false,
        }
    }
}

/// Settings key under which a project's export options are stored.
pub fn settings_key(project_id: &str) -> (r: String)
    ensures
        r@ == "export_config:"@ + project_id@,
{
    let mut s = String::from_str("export_config:");
    s.append(project_id);
    s
}

} // verus!
