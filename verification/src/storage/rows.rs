//! Documents read back from database rows: the type and status names, the
//! JSON lists of tags and label ids, and the document the columns of a row
//! make, and the document a create request makes. Reading and writing
//! the row itself is the caller's.
use vstd::prelude::*;
use vstd::string::*;

use crate::domain::{DocNode, DocumentStatus, DocumentType};
use crate::text::{chars_eq, chars_of, string_of, string_views, trim, trim_str};

verus! {

/// The list of strings a JSON text holds, as `serde_json` reads a
/// `Vec<String>`; `None` when the text is not such a list.
pub uninterp spec fn json_strings(text: Seq<char>) -> Option<Seq<Seq<char>>>;

/// `serde_json::from_str::<Vec<String>>(text).ok()`. The result is named by
/// `json_strings`.
#[verifier::external_body]
fn parse_json_strings(text: &str) -> (r: Option<Vec<String>>)
    ensures
        match r {
            Some(v) => json_strings(text@) == Some(string_views(v@)),
            None => json_strings(text@) is None,
        },
{
    serde_json::from_str::<Vec<String>>(text).ok()
}

/// The `(key, value)` pairs a JSON object of strings holds, in key order,
/// as `serde_json` reads a `BTreeMap<String, String>`; `None` when the text
/// is not such an object.
pub uninterp spec fn json_string_pairs(text: Seq<char>) -> Option<Seq<(Seq<char>, Seq<char>)>>;

/// The characters of `(key, value)` pairs.
pub open spec fn pair_views(v: Seq<(String, String)>) -> Seq<(Seq<char>, Seq<char>)> {
    v.map_values(|p: (String, String)| (p.0@, p.1@))
}

/// `serde_json::from_str::<BTreeMap<String, String>>(text).ok()`, the map's
/// entries handed out in key order. The result is named by
/// `json_string_pairs`.
#[verifier::external_body]
fn parse_json_string_pairs(text: &str) -> (r: Option<Vec<(String, String)>>)
    ensures
        match r {
            Some(v) => json_string_pairs(text@) == Some(pair_views(v@)),
            None => json_string_pairs(text@) is None,
        },
{
    serde_json::from_str::<std::collections::BTreeMap<String, String>>(text).ok().map(|m| m.into_iter().collect())
}

/// The pairs a stored JSON object column gives: those it holds, none when
/// the column is absent or not an object of strings.
pub open spec fn json_pairs_or_empty(column: Option<Seq<char>>) -> Seq<(Seq<char>, Seq<char>)> {
    match column {
        Some(t) => match json_string_pairs(t) {
            Some(v) => v,
            None => Seq::empty(),
        },
        None => Seq::empty(),
    }
}

/// The custom-field values of a stored JSON object column (see
/// `json_pairs_or_empty`).
pub fn json_pairs_from_column(column: Option<&str>) -> (r: Vec<(String, String)>)
    ensures
        pair_views(r@) == json_pairs_or_empty(opt_text(column)),
{
    match column {
        Some(t) => match parse_json_string_pairs(t) {
            Some(v) => v,
            None => {
                let e: Vec<(String, String)> = Vec::new();
                assert(pair_views(e@) =~= Seq::<(Seq<char>, Seq<char>)>::empty());
                e
            },
        },
        None => {
            let e: Vec<(String, String)> = Vec::new();
            assert(pair_views(e@) =~= Seq::<(Seq<char>, Seq<char>)>::empty());
            e
        },
    }
}

/// The document type a stored name stands for; an unknown name reads as a
/// note.
pub open spec fn doc_type_named(s: Seq<char>) -> DocumentType {
    if s == "chapter"@ {
        DocumentType::Chapter
    } else if s == "scene"@ {
        DocumentType::Scene
    } else if s == "note"@ {
        DocumentType::Note
    } else if s == "folder"@ {
        DocumentType::Folder
    } else if s == "manga_page"@ {
        DocumentType::MangaPage
    } else {
        DocumentType::Note
    }
}

/// The status a stored name stands for; an unknown name, or no status at
/// all, reads as a draft.
pub open spec fn status_named(s: Option<Seq<char>>) -> DocumentStatus {
    match s {
        Some(n) => if n == "revised"@ {
            DocumentStatus::Revised
        } else if n == "final"@ {
            DocumentStatus::Final
        } else if n == "trashed"@ {
            DocumentStatus::Trashed
        } else {
            DocumentStatus::Draft
        },
        None => DocumentStatus::Draft,
    }
}

/// The list a stored JSON column gives: the strings it holds, empty when
/// the column is absent or not a list of strings.
pub open spec fn json_list_or_empty(column: Option<Seq<char>>) -> Seq<Seq<char>> {
    match column {
        Some(t) => match json_strings(t) {
            Some(v) => v,
            None => Seq::empty(),
        },
        None => Seq::empty(),
    }
}

/// The characters of an optional text.
pub open spec fn opt_text(o: Option<&str>) -> Option<Seq<char>> {
    match o {
        Some(s) => Some(s@),
        None => None,
    }
}

/// The document type of a stored name (see `doc_type_named`).
pub fn doc_type_from_name(s: &str) -> (r: DocumentType)
    ensures
        r == doc_type_named(s@),
{
    let v = chars_of(s);
    if chars_eq(&v, &chars_of("chapter")) {
        DocumentType::Chapter
    } else if chars_eq(&v, &chars_of("scene")) {
        DocumentType::Scene
    } else if chars_eq(&v, &chars_of("note")) {
        DocumentType::Note
    } else if chars_eq(&v, &chars_of("folder")) {
        DocumentType::Folder
    } else if chars_eq(&v, &chars_of("manga_page")) {
        DocumentType::MangaPage
    } else {
        DocumentType::Note
    }
}

/// The status of a stored name (see `status_named`).
pub fn status_from_name(s: Option<&str>) -> (r: DocumentStatus)
    ensures
        r == status_named(opt_text(s)),
{
    match s {
        Some(n) => {
            let v = chars_of(n);
            if chars_eq(&v, &chars_of("revised")) {
                DocumentStatus::Revised
            } else if chars_eq(&v, &chars_of("final")) {
                DocumentStatus::Final
            } else if chars_eq(&v, &chars_of("trashed")) {
                DocumentStatus::Trashed
            } else {
                DocumentStatus::Draft
            }
        },
        None => DocumentStatus::Draft,
    }
}

/// The strings of a stored JSON list column (see `json_list_or_empty`).
pub fn json_list_from_column(column: Option<&str>) -> (r: Vec<String>)
    ensures
        string_views(r@) == json_list_or_empty(opt_text(column)),
{
    match column {
        Some(t) => match parse_json_strings(t) {
            Some(v) => v,
            None => {
                let e: Vec<String> = Vec::new();
                assert(string_views(e@) =~= Seq::<Seq<char>>::empty());
                e
            },
        },
        None => {
            let e: Vec<String> = Vec::new();
            assert(string_views(e@) =~= Seq::<Seq<char>>::empty());
            e
        },
    }
}

/// The document the columns of a stored row make: the type and status
/// read from their names, tags, label ids and custom-field values from
/// their JSON columns, and
/// every other field as stored.
pub fn document_from_fields(
    id: String,
    project_id: String,
    parent_id: Option<String>,
    title: String,
    doc_type: &str,
    content: Option<String>,
    content_json: Option<String>,
    synopsis: Option<String>,
    position: i64,
    status: Option<&str>,
    tags_json: Option<&str>,
    labels_json: Option<&str>,
    metadata_json: Option<&str>,
    is_research: bool,
    is_front_matter: bool,
    is_back_matter: bool,
    goal_words: Option<u32>,
    created_at: i64,
    updated_at: i64,
) -> (d: DocNode)
    ensures
        d.doc_type == doc_type_named(doc_type@),
        d.status == status_named(opt_text(status)),
        string_views(d.tags@) == json_list_or_empty(opt_text(tags_json)),
        string_views(d.label_ids@) == json_list_or_empty(opt_text(labels_json)),
        pair_views(d.metadata@) == json_pairs_or_empty(opt_text(metadata_json)),
        d.id == id,
        d.project_id == project_id,
        d.parent_id == parent_id,
        d.title == title,
        d.content == content,
        d.content_json == content_json,
        d.synopsis == synopsis,
        d.position == position,
        d.is_research == is_research,
        d.is_front_matter == is_front_matter,
        d.is_back_matter == is_back_matter,
        d.goal_words == goal_words,
        d.created_at == created_at,
        d.updated_at == updated_at,
{
    DocNode {
        id,
        project_id,
        parent_id,
        title,
        doc_type: doc_type_from_name(doc_type),
        content,
        content_json,
        synopsis,
        position,
        status: status_from_name(status),
        tags: json_list_from_column(tags_json),
        label_ids: json_list_from_column(labels_json),
        metadata: json_pairs_from_column(metadata_json),
        is_research,
        is_front_matter,
        is_back_matter,
        goal_words,
        created_at,
        updated_at,
    }
}

/// A new document: under `parent_id` in `project_id`, with its title
/// trimmed, the given type and content, the next position among its
/// siblings, a draft with no synopsis, tags, labels, field values, flags
/// or goal, created
/// and updated at `now`.
pub fn new_document(
    id: String,
    project_id: String,
    parent_id: Option<String>,
    title: &str,
    doc_type: DocumentType,
    content: Option<String>,
    next_position: i64,
    now: i64,
) -> (d: DocNode)
    ensures
        d.id == id,
        d.project_id == project_id,
        d.parent_id == parent_id,
        d.title@ == trim(title@),
        d.doc_type == doc_type,
        d.content == content,
        d.content_json is None,
        d.synopsis is None,
        d.position == next_position,
        d.status == DocumentStatus::Draft,
        d.tags@.len() == 0,
        d.label_ids@.len() == 0,
        d.metadata@.len() == 0,
        !d.is_research && !d.is_front_matter && !d.is_back_matter,
        d.goal_words is None,
        d.created_at == now,
        d.updated_at == now,
{
    DocNode {
        id,
        project_id,
        parent_id,
        title: string_of(&trim_str(title)),
        doc_type,
        content,
        content_json: None,
        synopsis: None,
        position: next_position,
        status: DocumentStatus::Draft,
        tags: Vec::new(),
        label_ids: Vec::new(),
        metadata: Vec::new(),
        is_research: false,
        is_front_matter: false,
        is_back_matter: false,
        goal_words: None,
        created_at: now,
        updated_at: now,
    }
}

} // verus!
