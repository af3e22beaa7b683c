//! User-authored templates: a template made from a live project (its
//! binder structure, synopses kept, contents dropped). Reading and writing
//! the template files is the caller's.
use vstd::prelude::*;
use vstd::string::*;

use std::path::PathBuf;

use crate::domain::{
    DocNode, DocumentStatus, DocumentType, FieldType, MetadataField, Project, Template,
    TemplateKind, TemplateNode, TemplateTier, TEMPLATE_SCHEMA_VERSION,
};
use crate::exporter::util::{insert_by_pos_exec, opt_chars, parent_matches, parent_view, sort_by_pos};
use crate::ids::new_id;
use crate::text::{
    chars_eq, chars_of, lemma_lex_le_total, lemma_lex_le_trans, lex_le, lex_le_exec,
    lex_lt, lowercase, starts_with, string_of, to_lowercase,
    trim, trim_str,
};

verus! {

/// Where user templates live.
#[derive(Debug)]
pub struct UserTemplatesLoader {
    dir: PathBuf,
}

impl UserTemplatesLoader {
    /// The directory of the template files.
    pub closed spec fn spec_dir(&self) -> PathBuf {
        self.dir
    }

    /// A loader over `dir`.
    pub fn new(dir: PathBuf) -> (r: Self)
        ensures
            r.spec_dir() == dir,
    {
        UserTemplatesLoader { dir }
    }

    /// The directory of the template files.
    pub fn dir(&self) -> (r: &PathBuf)
        ensures
            *r == self.spec_dir(),
    {
        &self.dir
    }
}

/// Insert `x` before the first template whose name sorts strictly after
/// its own.
pub open spec fn insert_by_name(s: Seq<Template>, x: Template) -> Seq<Template>
    decreases s.len(),
{
    if s.len() == 0 {
        seq![x]
    } else if lex_lt(x.name@, s[0].name@) {
        seq![x] + s
    } else {
        seq![s[0]] + insert_by_name(s.drop_first(), x)
    }
}

/// The templates stably sorted by name, in string order.
pub open spec fn by_name(s: Seq<Template>) -> Seq<Template>
    decreases s.len(),
{
    if s.len() == 0 {
        Seq::empty()
    } else {
        insert_by_name(by_name(s.drop_last()), s.last())
    }
}

proof fn lemma_insert_by_name(s: Seq<Template>, x: Template, j: int)
    requires
        0 <= j <= s.len(),
        forall|t: int| 0 <= t < j ==> !lex_lt(x.name@, #[trigger] s[t].name@),
        j < s.len() ==> lex_lt(x.name@, s[j].name@),
    ensures
        insert_by_name(s, x) == s.insert(j, x),
    decreases s.len(),
{
    if s.len() == 0 {
        assert(s.insert(j, x) =~= seq![x]);
    } else if j == 0 {
        assert(s.insert(0, x) =~= seq![x] + s);
    } else {
        let d = s.drop_first();
        assert forall|t: int| 0 <= t < j - 1 implies !lex_lt(x.name@, #[trigger] d[t].name@) by {
            assert(d[t] == s[t + 1]);
        }
        if j - 1 < d.len() {
            assert(d[j - 1] == s[j]);
        }
        lemma_insert_by_name(d, x, j - 1);
        assert(seq![s[0]] + d.insert(j - 1, x) =~= s.insert(j, x));
    }
}

/// Each template's name sorts at or before the names of those after it.
pub open spec fn sorted_by_name(s: Seq<Template>) -> bool {
    forall|i: int, j: int| 0 <= i < j < s.len() ==> lex_le(#[trigger] s[i].name@, #[trigger] s[j].name@)
}

/// Where `insert_by_name` puts `x`: after every name not above its own,
/// before the first one above.
proof fn lemma_name_slot(s: Seq<Template>, x: Template) -> (j: int)
    ensures
        0 <= j <= s.len(),
        forall|t: int| 0 <= t < j ==> !lex_lt(x.name@, #[trigger] s[t].name@),
        j < s.len() ==> lex_lt(x.name@, s[j].name@),
    decreases s.len(),
{
    if s.len() == 0 {
        0
    } else if lex_lt(x.name@, s[0].name@) {
        0
    } else {
        let d = s.drop_first();
        let j = lemma_name_slot(d, x);
        assert forall|t: int| 0 <= t < j + 1 implies !lex_lt(x.name@, #[trigger] s[t].name@) by {
            if t > 0 {
                assert(s[t] == d[t - 1]);
            }
        }
        if j + 1 < s.len() {
            assert(s[j + 1] == d[j]);
        }
        j + 1
    }
}

/// `!lex_lt(a, b)` puts `b` at or before `a`.
pub(crate) proof fn lemma_not_lt(a: Seq<char>, b: Seq<char>)
    ensures
        !lex_lt(a, b) ==> lex_le(b, a),
        lex_lt(a, b) ==> lex_le(a, b),
{
    lemma_lex_le_total(a, b, 0);
    lemma_lex_le_total(b, b, 0);
}

/// Inserting a template where its name belongs keeps a sorted list sorted.
pub(crate) proof fn lemma_insert_sorted(s: Seq<Template>, x: Template, j: int)
    requires
        sorted_by_name(s),
        0 <= j <= s.len(),
        forall|t: int| 0 <= t < j ==> !lex_lt(x.name@, #[trigger] s[t].name@),
        j < s.len() ==> lex_lt(x.name@, s[j].name@),
    ensures
        sorted_by_name(s.insert(j, x)),
{
    let r = s.insert(j, x);
    assert forall|a: int, b: int| 0 <= a < b < r.len() implies lex_le(
        #[trigger] r[a].name@,
        #[trigger] r[b].name@,
    ) by {
        if a < j {
            lemma_not_lt(x.name@, s[a].name@);
            if b > j {
                assert(r[b] == s[b - 1]);
                assert(lex_le(s[a].name@, s[b - 1].name@));
            } else if b < j {
                assert(lex_le(s[a].name@, s[b].name@));
            }
        } else if a == j {
            assert(r[b] == s[b - 1]);
            lemma_not_lt(x.name@, s[j].name@);
            if j < b - 1 {
                assert(lex_le(s[j].name@, s[b - 1].name@));
                lemma_lex_le_trans(x.name@, s[j].name@, s[b - 1].name@, 0);
            }
        } else {
            assert(r[a] == s[a - 1] && r[b] == s[b - 1]);
            assert(lex_le(s[a - 1].name@, s[b - 1].name@));
        }
    }
}

/// The template catalogue is listed in name order and holds exactly the
/// templates it was given, each as often.
pub proof fn law_catalogue_sorted_by_name(ts: Seq<Template>)
    ensures
        sorted_by_name(by_name(ts)),
        by_name(ts).to_multiset() == ts.to_multiset(),
    decreases ts.len(),
{
    if ts.len() == 0 {
        assert(ts =~= Seq::<Template>::empty());
    } else {
        let p = ts.drop_last();
        let x = ts.last();
        law_catalogue_sorted_by_name(p);
        let s = by_name(p);
        let j = lemma_name_slot(s, x);
        lemma_insert_by_name(s, x, j);
        lemma_insert_sorted(s, x, j);
        assert(by_name(ts) == s.insert(j, x));
        vstd::seq_lib::to_multiset_insert(s, j, x);
        vstd::seq_lib::to_multiset_build(p, x);
        assert(ts =~= p.push(x));
    }
}

/// Whether `a` sorts strictly before `b`.
pub(crate) fn name_lt(a: &Vec<char>, b: &Vec<char>) -> (r: bool)
    ensures
        r == lex_lt(a@, b@),
{
    lex_le_exec(a, b) && !chars_eq(a, b)
}

/// The templates sorted by name (a stable sort: equal names keep their
/// order), as the catalogue lists them.
pub fn sort_templates_by_name(templates: Vec<Template>) -> (r: Vec<Template>)
    ensures
        r@ == by_name(templates@),
{
    let ghost orig = templates@;
    let mut rest = templates;
    let mut out: Vec<Template> = Vec::new();
    let ghost mut k: int = 0;
    while rest.len() > 0
        invariant
            0 <= k <= orig.len(),
            rest@ == orig.skip(k),
            out@ == by_name(orig.take(k)),
        decreases rest@.len(),
    {
        let x = rest.remove(0);
        proof {
            assert(x == orig[k]);
            assert(orig.take(k + 1).drop_last() =~= orig.take(k));
            assert(orig.take(k + 1).last() == orig[k]);
        }
        let xn = chars_of(x.name.as_str());
        let ghost sorted = out@;
        let mut j: usize = 0;
        let mut stop = false;
        while j < out.len()
            invariant_except_break
                !stop,
            invariant
                j <= out@.len(),
                out@ == sorted,
                xn@ == x.name@,
                forall|t: int| 0 <= t < j ==> !lex_lt(x.name@, #[trigger] sorted[t].name@),
            ensures
                j <= out@.len(),
                forall|t: int| 0 <= t < j ==> !lex_lt(x.name@, #[trigger] sorted[t].name@),
                j < out@.len() ==> lex_lt(x.name@, sorted[j as int].name@),
            decreases out@.len() - j,
        {
            let yn = chars_of(out[j].name.as_str());
            if name_lt(&xn, &yn) {
                stop = true;
                break;
            }
            j += 1;
        }
        proof {
            lemma_insert_by_name(sorted, x, j as int);
        }
        out.insert(j, x);
        proof {
            k = k + 1;
            assert(rest@ =~= orig.skip(k));
        }
    }
    proof {
        assert(orig.take(k) =~= orig);
    }
    out
}

/// The first template whose id is `id`, if any.
pub fn find_template(templates: Vec<Template>, id: &str) -> (r: Option<Template>)
    ensures
        match r {
            Some(t) => exists|i: int|
                #![trigger templates@[i]]
                0 <= i < templates@.len() && templates@[i] == t && t.id@ == id@ && forall|j: int|
                    0 <= j < i ==> #[trigger] templates@[j].id@ != id@,
            None => forall|i: int| 0 <= i < templates@.len() ==> #[trigger] templates@[i].id@ != id@,
        },
{
    let ghost orig = templates@;
    let want = chars_of(id);
    let mut i: usize = 0;
    while i < templates.len()
        invariant
            i <= templates@.len(),
            templates@ == orig,
            want@ == id@,
            forall|j: int| 0 <= j < i ==> #[trigger] orig[j].id@ != id@,
        decreases templates@.len() - i,
    {
        let xi = chars_of(templates[i].id.as_str());
        if chars_eq(&xi, &want) {
            let mut rest = templates;
            let t = rest.remove(i);
            assert(orig[i as int] == t);
            return Some(t);
        }
        i += 1;
    }
    None
}

/// Indices `i < k` of the live (not trashed) documents under `parent`.
pub open spec fn live_children_upto(docs: Seq<DocNode>, parent: Option<Seq<char>>, k: int) -> Seq<int>
    decreases k,
{
    if k <= 0 {
        Seq::empty()
    } else if parent_view(docs[k - 1]) == parent && docs[k - 1].status != DocumentStatus::Trashed {
        live_children_upto(docs, parent, k - 1).push(k - 1)
    } else {
        live_children_upto(docs, parent, k - 1)
    }
}

/// The live children of `parent` ordered by position (ties keep order).
pub open spec fn live_children(docs: Seq<DocNode>, parent: Option<Seq<char>>) -> Seq<int> {
    sort_by_pos(docs, live_children_upto(docs, parent, docs.len() as int))
}

/// A structural slot with its texts as characters.
pub struct SlotView {
    pub title: Seq<char>,
    pub doc_type: DocumentType,
    pub synopsis: Option<Seq<char>>,
    pub children: Seq<SlotView>,
}

/// The view of a template node.
pub open spec fn slot_view(n: TemplateNode) -> SlotView
    decreases n,
{
    SlotView {
        title: n.title@,
        doc_type: n.doc_type,
        synopsis: match n.synopsis {
            Some(s) => Some(s@),
            None => None,
        },
        children: slot_views(n.children@),
    }
}

/// The views of a list of template nodes.
pub open spec fn slot_views(s: Seq<TemplateNode>) -> Seq<SlotView>
    decreases s,
{
    if s.len() == 0 {
        Seq::empty()
    } else {
        slot_views(s.drop_last()).push(slot_view(s.last()))
    }
}

/// A synopsis kept when it has a non-blank character.
pub open spec fn kept_synopsis(o: Option<String>) -> Option<Seq<char>> {
    match o {
        Some(s) => if trim(s@).len() > 0 {
            Some(s@)
        } else {
            None
        },
        None => None,
    }
}

/// The structure below `parent`: each live child (by position) with its
/// title, type, non-blank synopsis and own structure. `fuel` bounds the
/// depth.
pub open spec fn structure(docs: Seq<DocNode>, parent: Option<Seq<char>>, fuel: nat) -> Seq<SlotView>
    decreases fuel, 0int,
{
    if fuel == 0 {
        Seq::empty()
    } else {
        structure_list(docs, live_children(docs, parent), (fuel - 1) as nat)
    }
}

/// The structure of a list of sibling indices.
pub open spec fn structure_list(docs: Seq<DocNode>, kids: Seq<int>, fuel: nat) -> Seq<SlotView>
    decreases fuel, 1 + kids.len(),
{
    if kids.len() == 0 {
        Seq::empty()
    } else if 0 <= kids[0] < docs.len() {
        let d = docs[kids[0]];
        seq![
            SlotView {
                title: d.title@,
                doc_type: d.doc_type,
                synopsis: kept_synopsis(d.synopsis),
                children: structure(docs, Some(d.id@), fuel),
            },
        ] + structure_list(docs, kids.drop_first(), fuel)
    } else {
        structure_list(docs, kids.drop_first(), fuel)
    }
}

/// `live_children` computed on vectors.
fn live_children_exec(docs: &[DocNode], parent: &Option<Vec<char>>) -> (out: Vec<usize>)
    ensures
        out@.map_values(|v: usize| v as int) == live_children(docs@, opt_chars(*parent)),
        forall|i: int| 0 <= i < out@.len() ==> out@[i] < docs.len(),
{
    let ghost pv = opt_chars(*parent);
    let mut raw: Vec<usize> = Vec::new();
    let mut k: usize = 0;
    while k < docs.len()
        invariant
            k <= docs.len(),
            pv == opt_chars(*parent),
            raw@.map_values(|v: usize| v as int) == live_children_upto(docs@, pv, k as int),
            forall|i: int| 0 <= i < raw@.len() ==> raw@[i] < k,
        decreases docs.len() - k,
    {
        let ghost r0 = raw@.map_values(|v: usize| v as int);
        let live = match docs[k].status {
            DocumentStatus::Trashed => false,
            _ => true,
        };
        if parent_matches(&docs[k], parent) && live {
            raw.push(k);
            assert(raw@.map_values(|v: usize| v as int) =~= r0.push(k as int));
        }
        k += 1;
    }
    let mut sorted: Vec<usize> = Vec::new();
    let mut j: usize = 0;
    while j < raw.len()
        invariant
            j <= raw.len(),
            forall|i: int| 0 <= i < raw@.len() ==> raw@[i] < docs.len(),
            forall|i: int| 0 <= i < sorted@.len() ==> sorted@[i] < docs.len(),
            sorted@.map_values(|v: usize| v as int) == sort_by_pos(
                docs@,
                raw@.map_values(|v: usize| v as int).take(j as int),
            ),
        decreases raw.len() - j,
    {
        let ghost rv = raw@.map_values(|v: usize| v as int);
        assert(rv.take(j + 1).drop_last() =~= rv.take(j as int));
        assert(rv.take(j + 1).last() == raw@[j as int] as int);
        insert_by_pos_exec(docs, &mut sorted, raw[j]);
        j += 1;
    }
    assert(raw@.map_values(|v: usize| v as int).take(raw.len() as int) =~= raw@.map_values(
        |v: usize| v as int,
    ));
    sorted
}

/// A copy of a synopsis when it is not blank.
fn keep_synopsis(o: &Option<String>) -> (r: Option<String>)
    ensures
        match r {
            Some(s) => kept_synopsis(*o) == Some(s@),
            None => kept_synopsis(*o) is None,
        },
{
    match o {
        Some(s) => if trim_str(s.as_str()).len() > 0 {
            Some(s.clone())
        } else {
            None
        },
        None => None,
    }
}

/// The structure below `parent`.
fn structure_exec(docs: &[DocNode], parent: &Option<Vec<char>>, fuel: usize) -> (out: Vec<TemplateNode>)
    ensures
        slot_views(out@) == structure(docs@, opt_chars(*parent), fuel as nat),
    decreases fuel, 0int,
{
    if fuel == 0 {
        return Vec::new();
    }
    let kids = live_children_exec(docs, parent);
    assert(kids@.map_values(|v: usize| v as int).skip(0) =~= kids@.map_values(|v: usize| v as int));
    structure_list_exec(docs, &kids, 0, fuel - 1)
}

/// The structure of `kids[from..]`.
fn structure_list_exec(docs: &[DocNode], kids: &Vec<usize>, from: usize, fuel: usize) -> (out: Vec<TemplateNode>)
    requires
        from <= kids@.len(),
        forall|i: int| 0 <= i < kids@.len() ==> kids@[i] < docs.len(),
    ensures
        slot_views(out@) == structure_list(
            docs@,
            kids@.map_values(|v: usize| v as int).skip(from as int),
            fuel as nat,
        ),
    decreases fuel, 1 + kids@.len() - from,
{
    let ghost rest = kids@.map_values(|v: usize| v as int).skip(from as int);
    if from == kids.len() {
        assert(rest.len() == 0);
        return Vec::new();
    }
    assert(rest[0] == kids@[from as int] as int);
    assert(rest.drop_first() =~= kids@.map_values(|v: usize| v as int).skip(from + 1));
    let d = &docs[kids[from]];
    let id = Some(chars_of(d.id.as_str()));
    let children = structure_exec(docs, &id, fuel);
    let node = TemplateNode {
        title: d.title.clone(),
        doc_type: d.doc_type,
        synopsis: keep_synopsis(&d.synopsis),
        children,
    };
    let mut out = structure_list_exec(docs, kids, from + 1, fuel);
    let ghost tail = out@;
    out.insert(0, node);
    proof {
        assert(out@.drop_first() =~= tail);
        assert(out@[0] == node);
        lemma_slot_views_first(out@);
        assert(slot_view(node) == SlotView {
            title: d.title@,
            doc_type: d.doc_type,
            synopsis: kept_synopsis(d.synopsis),
            children: structure(docs@, Some(d.id@), fuel as nat),
        });
    }
    out
}

proof fn lemma_slot_views_first(s: Seq<TemplateNode>)
    requires
        s.len() > 0,
    ensures
        slot_views(s) == seq![slot_view(s[0])] + slot_views(s.drop_first()),
    decreases s.len(),
{
    if s.len() == 1 {
        assert(s.drop_last() =~= Seq::<TemplateNode>::empty());
        assert(s.drop_first() =~= Seq::<TemplateNode>::empty());
    } else {
        lemma_slot_views_first(s.drop_last());
        assert(s.drop_last().drop_first() =~= s.drop_first().drop_last());
        assert(s.drop_first().last() == s.last());
        assert(s.drop_last()[0] == s[0]);
    }
}

/// How many documents of the list are not folders.
pub open spec fn leaf_count(docs: Seq<DocNode>) -> nat
    decreases docs.len(),
{
    if docs.len() == 0 {
        0
    } else {
        leaf_count(docs.drop_last()) + if docs.last().doc_type != DocumentType::Folder {
            1nat
        } else {
            0nat
        }
    }
}

/// How many documents of the list are notes.
pub open spec fn note_count(docs: Seq<DocNode>) -> nat
    decreases docs.len(),
{
    if docs.len() == 0 {
        0
    } else {
        note_count(docs.drop_last()) + if docs.last().doc_type == DocumentType::Note {
            1nat
        } else {
            0nat
        }
    }
}

/// The kind a project's documents suggest: manga with any manga page,
/// paper when notes are more than half of the non-folder documents,
/// novel otherwise.
pub open spec fn guessed_kind(docs: Seq<DocNode>) -> TemplateKind {
    if exists|i: int| 0 <= i < docs.len() && docs[i].doc_type == DocumentType::MangaPage {
        TemplateKind::Manga
    } else if leaf_count(docs) > 0 && note_count(docs) * 2 > leaf_count(docs) {
        TemplateKind::Paper
    } else {
        TemplateKind::Novel
    }
}

/// Guess the kind of template a project makes.
pub fn guess_kind(project: &Project, documents: &[DocNode]) -> (r: TemplateKind)
    ensures
        r == guessed_kind(documents@),
{
    let mut manga = false;
    let mut leaves: usize = 0;
    let mut notes: usize = 0;
    let mut i: usize = 0;
    while i < documents.len()
        invariant
            i <= documents@.len(),
            manga == exists|j: int| 0 <= j < i && documents@[j].doc_type == DocumentType::MangaPage,
            leaves == leaf_count(documents@.take(i as int)),
            notes == note_count(documents@.take(i as int)),
            notes <= leaves <= i,
        decreases documents@.len() - i,
    {
        assert(documents@.take(i + 1).drop_last() =~= documents@.take(i as int));
        match documents[i].doc_type {
            DocumentType::MangaPage => {
                manga = true;
                leaves += 1;
            },
            DocumentType::Folder => {},
            DocumentType::Note => {
                leaves += 1;
                notes += 1;
            },
            _ => {
                leaves += 1;
            },
        }
        i += 1;
    }
    assert(documents@.take(documents@.len() as int) =~= documents@);
    if manga {
        return TemplateKind::Manga;
    }
    if leaves > 0 && (notes as u128) * 2 > leaves as u128 {
        return TemplateKind::Paper;
    }
    TemplateKind::Novel
}

/// Build a template from a project and its documents: the structure
/// mirrors the live document tree by position, contents dropped, non-blank
/// synopses kept; a fresh `user-` id; one optional author field. (With
/// distinct ids a branch is at most as deep as there are documents, so
/// that many levels reach every document below a root.)
pub fn template_from_project(
    project: &Project,
    documents: &[DocNode],
    name: &str,
    description: Option<&str>,
    locale: &str,
) -> (t: Template)
    ensures
        starts_with(t.id@, "user-"@),
        t.schema_version == TEMPLATE_SCHEMA_VERSION,
        t.name@ == trim(name@),
        match description {
            Some(d) => if trim(d@).len() > 0 {
                t.description matches Some(s) && s@ == trim(d@)
            } else {
                t.description is None
            },
            None => t.description is None,
        },
        t.kind == guessed_kind(documents@),
        t.locale@ == locale@,
        t.tier == TemplateTier::Free,
        slot_views(t.structure@) == structure(documents@, None, documents@.len()),
        t.metadata_fields@.len() == 1,
        t.metadata_fields@[0].key@ == "author"@,
        t.metadata_fields@[0].label@ == "Author"@,
        t.metadata_fields@[0].field_type == FieldType::String,
        !t.metadata_fields@[0].required,
        t.metadata_fields@[0].default is None,
{
    let raw_id = new_id();
    let mut id = String::from_str("user-");
    let low = to_lowercase(raw_id.as_str());
    id.append(low.as_str());
    proof {
        reveal_strlit("user-");
        assert(id@.subrange(0, 5) =~= "user-"@);
    }
    let kind = guess_kind(project, documents);
    let desc = match description {
        Some(d) => {
            let t = trim_str(d);
            if t.len() > 0 {
                Some(string_of(&t))
            } else {
                None
            }
        },
        None => None,
    };
    let structure = structure_exec(documents, &None, documents.len());
    proof {
        assert(opt_chars(None) == None::<Seq<char>>);
    }
    let mut fields: Vec<MetadataField> = Vec::new();
    fields.push(
        MetadataField {
            key: String::from_str("author"),
            label: String::from_str("Author"),
            field_type: FieldType::String,
            required: false,
            default: None,
        },
    );
    let ts = trim_str(name);
    Template {
        schema_version: TEMPLATE_SCHEMA_VERSION,
        id,
        name: string_of(&ts),
        description: desc,
        kind,
        locale: String::from_str(locale),
        tier: TemplateTier::Free,
        structure,
        metadata_fields: fields,
    }
}

} // verus!
