//! Domain model of a writing project: documents in a binder tree, codex
//! entries, projects and templates.
use vstd::prelude::*;

verus! {

/// Kind of a binder document.
#[derive(Debug, Clone, Copy, PartialEq, Eq)]
pub enum DocumentType {
    Folder,
    Chapter,
    Scene,
    Note,
    MangaPage,
}

/// Workflow status of a document.
#[derive(Debug, Clone, Copy, PartialEq, Eq)]
pub enum DocumentStatus {
    Draft,
    Revised,
    Final,
    Trashed,
}

/// A document of the binder. `parent_id` links it into the tree and
/// `position` orders it among its siblings.
#[derive(Debug, Clone, PartialEq, Eq)]
pub struct DocNode {
    pub id: String,
    pub project_id: String,
    pub parent_id: Option<String>,
    pub title: String,
    pub doc_type: DocumentType,
    pub content: Option<String>,
    pub content_json: Option<String>,
    pub synopsis: Option<String>,
    pub position: i64,
    pub status: DocumentStatus,
    pub tags: Vec<String>,
    pub label_ids: Vec<String>,
    /// Custom-field values: `(field id, value)`, in field-id order.
    pub metadata: Vec<(String, String)>,
    pub is_research: bool,
    pub is_front_matter: bool,
    pub is_back_matter: bool,
    pub goal_words: Option<u32>,
    pub created_at: i64,
    pub updated_at: i64,
}

/// Lifecycle status of a project.
#[derive(Debug, Clone, Copy, PartialEq, Eq)]
pub enum ProjectStatus {
    Active,
    Archived,
}

/// The parts of a project's free-form JSON metadata that the services read:
/// its compact JSON text and the `author` / `synopsis` string fields.
#[derive(Debug, Clone, PartialEq, Eq)]
pub struct ProjectMetadata {
    pub json: String,
    pub author: Option<String>,
    pub synopsis: Option<String>,
}

/// A writing project.
#[derive(Debug, Clone, PartialEq, Eq)]
pub struct Project {
    pub id: String,
    pub title: String,
    pub template_id: String,
    pub status: ProjectStatus,
    pub metadata: Option<ProjectMetadata>,
    pub goal_words: Option<u32>,
    pub deadline: Option<String>,
    pub created_at: i64,
    pub updated_at: i64,
}

/// Kind of a codex (worldbuilding) entry.
#[derive(Debug, Clone, Copy, PartialEq, Eq)]
pub enum CodexKind {
    Character,
    Place,
    Object,
    Note,
}

impl CodexKind {
    /// Wire name of the kind.
    pub open spec fn spec_as_str(self) -> Seq<char> {
        match self {
            CodexKind::Character => "character"@,
            CodexKind::Place => "place"@,
            CodexKind::Object => "object"@,
            CodexKind::Note => "note"@,
        }
    }

    /// Wire name of the kind.
    pub fn as_str(self) -> (r: &'static str)
        ensures
            r@ == self.spec_as_str(),
    {
        match self {
            CodexKind::Character => "character",
            CodexKind::Place => "place",
            CodexKind::Object => "object",
            CodexKind::Note => "note",
        }
    }
}

/// A codex entry: a character, place, object or note of the project.
#[derive(Debug, Clone, PartialEq, Eq)]
pub struct CodexEntry {
    pub id: String,
    pub project_id: String,
    pub kind: CodexKind,
    pub name: String,
    pub body: Option<String>,
    pub tags: Vec<String>,
    pub created_at: i64,
    pub updated_at: i64,
}

/// A full-text search hit.
#[derive(Debug, Clone, PartialEq, Eq)]
pub struct SearchHit {
    pub document_id: String,
    pub project_id: String,
    pub title: String,
    pub excerpt: String,
}

/// A stored media blob.
#[derive(Debug, Clone, PartialEq, Eq)]
pub struct MediaAsset {
    pub id: String,
    pub project_id: String,
    pub path_relative: String,
    pub mime: String,
    pub sha256: String,
    pub bytes: i64,
    pub created_at: i64,
}

/// Version of the template file format.
pub const TEMPLATE_SCHEMA_VERSION: u32 = 1;

/// Genre family of a template.
#[derive(Debug, Clone, Copy, PartialEq, Eq)]
pub enum TemplateKind {
    Novel,
    Paper,
    Manga,
    Screenplay,
    Generic,
}

/// Availability tier of a template.
#[derive(Debug, Clone, Copy, PartialEq, Eq)]
pub enum TemplateTier {
    Free,
    Premium,
}

/// Value type of a template metadata field.
#[derive(Debug, Clone, Copy, PartialEq, Eq)]
pub enum FieldType {
    String,
    Text,
    Number,
    Date,
}

/// A metadata field the project wizard asks for.
#[derive(Debug, Clone, PartialEq, Eq)]
pub struct MetadataField {
    pub key: String,
    pub label: String,
    pub field_type: FieldType,
    pub required: bool,
    pub default: Option<String>,
}

/// One structural slot of a template.
#[derive(Debug, PartialEq, Eq)]
pub struct TemplateNode {
    pub title: String,
    pub doc_type: DocumentType,
    pub synopsis: Option<String>,
    pub children: Vec<TemplateNode>,
}

/// A project template: a named binder structure plus metadata fields.
#[derive(Debug, PartialEq, Eq)]
pub struct Template {
    pub schema_version: u32,
    pub id: String,
    pub name: String,
    pub description: Option<String>,
    pub kind: TemplateKind,
    pub locale: String,
    pub tier: TemplateTier,
    pub structure: Vec<TemplateNode>,
    pub metadata_fields: Vec<MetadataField>,
}

} // verus!
