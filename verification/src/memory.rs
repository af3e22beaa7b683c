//! Project memory for the AI assistant, lexical tier: the context block
//! the inline actions and validators get, assembled from what the project
//! already holds.
//!   - semantic memory: codex entries mentioned in the working window;
//!   - episodic memory: prior passages from the full-text index;
//!   - synopses: of the current document and of the project.
//! The caller fetches the rows (codex entries, search hits per mentioned
//! name, the document, the project); this module decides what goes in.
use vstd::prelude::*;
use vstd::string::*;

use crate::ai_validators::truncated;
use crate::error::AppResult;
use crate::domain::{CodexEntry, DocNode, Project, SearchHit};
use crate::text::{
    chars_eq, chars_of, contains, contains_exec, join, join_strings, lowercase, replace_all,
    replace_all_exec, slice_chars, string_of, string_views, to_lowercase, trim, trim_chars, trim_str,
};
use crate::token_counter::{estimate_tokens, spec_estimate_tokens};

verus! {

/// What to build context for. `window_text` is the plain text near the
/// cursor that anchors relevance.
#[derive(Debug, Clone)]
pub struct MemoryRequest {
    pub project_id: String,
    pub doc_id: Option<String>,
    pub window_text: String,
    /// Soft cap; episodic excerpts are dropped first to meet it.
    pub token_budget: u32,
}

/// Default budget of the memory block.
pub const DEFAULT_BUDGET: u32 = 4000;

/// Retrieved memory; `render` turns it into the prompt block.
#[derive(Debug, Default, Clone, PartialEq, Eq)]
pub struct MemoryContext {
    pub project_synopsis: Option<String>,
    pub doc_synopsis: Option<String>,
    pub codex_snippets: Vec<String>,
    pub episodic_excerpts: Vec<String>,
}

/// A memory context with its texts as characters.
pub struct MemoryView {
    pub project_synopsis: Option<Seq<char>>,
    pub doc_synopsis: Option<Seq<char>>,
    pub codex: Seq<Seq<char>>,
    pub episodic: Seq<Seq<char>>,
}

/// The characters of an optional string.
pub open spec fn opt_chars(o: Option<String>) -> Option<Seq<char>> {
    match o {
        Some(s) => Some(s@),
        None => None,
    }
}

impl View for MemoryContext {
    type V = MemoryView;

    open spec fn view(&self) -> MemoryView {
        MemoryView {
            project_synopsis: opt_chars(self.project_synopsis),
            doc_synopsis: opt_chars(self.doc_synopsis),
            codex: string_views(self.codex_snippets@),
            episodic: string_views(self.episodic_excerpts@),
        }
    }
}

/// Nothing was retrieved.
pub open spec fn memory_empty(m: MemoryView) -> bool {
    m.project_synopsis is None && m.doc_synopsis is None && m.codex.len() == 0 && m.episodic.len() == 0
}

/// Each item as a `- item` line.
pub open spec fn bullet_lines(items: Seq<Seq<char>>) -> Seq<char>
    decreases items.len(),
{
    if items.len() == 0 {
        Seq::empty()
    } else {
        bullet_lines(items.drop_last()) + "- "@ + items.last() + seq!['\n']
    }
}

/// The first line of a memory block.
pub open spec fn memory_header() -> Seq<char> {
    "== Memoria del proyecto ==\n"@
}

/// A `label` line holding a synopsis, or nothing without one.
pub open spec fn synopsis_line(label: Seq<char>, o: Option<Seq<char>>) -> Seq<char> {
    match o {
        Some(s) => label + s + seq!['\n'],
        None => Seq::empty(),
    }
}

/// A list under its heading, or nothing for an empty list.
pub open spec fn list_section(heading: Seq<char>, items: Seq<Seq<char>>) -> Seq<char> {
    if items.len() > 0 {
        heading + bullet_lines(items)
    } else {
        Seq::empty()
    }
}

/// The label of the project synopsis line.
pub open spec fn project_label() -> Seq<char> {
    "Sinopsis del proyecto: "@
}

/// The label of the document synopsis line.
pub open spec fn doc_label() -> Seq<char> {
    "Sinopsis del documento actual: "@
}

/// The heading of the codex list.
pub open spec fn codex_heading() -> Seq<char> {
    "\nEntradas del codex relevantes:\n"@
}

/// The heading of the excerpt list.
pub open spec fn excerpt_heading() -> Seq<char> {
    "\nPasajes anteriores relevantes:\n"@
}

/// The prompt block of a memory context; empty when nothing was retrieved.
pub open spec fn rendered_memory(m: MemoryView) -> Seq<char> {
    if memory_empty(m) {
        Seq::empty()
    } else {
        memory_header() + synopsis_line(project_label(), m.project_synopsis) + synopsis_line(
            doc_label(),
            m.doc_synopsis,
        ) + list_section(codex_heading(), m.codex) + list_section(excerpt_heading(), m.episodic)
    }
}

/// The `- item` line of a list item.
pub open spec fn item_line(s: Seq<char>) -> Seq<char> {
    "- "@ + s + seq!['\n']
}

/// Where the line of the `k`-th codex snippet starts in the block.
#[verifier::opaque]
pub open spec fn codex_line_at(m: MemoryView, k: int) -> int {
    0int + memory_header().len() + synopsis_line(project_label(), m.project_synopsis).len() + synopsis_line(
        doc_label(),
        m.doc_synopsis,
    ).len() + codex_heading().len() + bullet_lines(m.codex.take(k)).len()
}

/// Where the excerpt list (its heading) starts in the block.
pub open spec fn excerpts_start(m: MemoryView) -> int {
    0int + memory_header().len() + synopsis_line(project_label(), m.project_synopsis).len()
        + synopsis_line(doc_label(), m.doc_synopsis).len() + list_section(codex_heading(), m.codex).len()
}

/// Where the line of the `k`-th excerpt starts in the block.
#[verifier::opaque]
pub open spec fn excerpt_line_at(m: MemoryView, k: int) -> int {
    0int + memory_header().len() + synopsis_line(project_label(), m.project_synopsis).len() + synopsis_line(
        doc_label(),
        m.doc_synopsis,
    ).len() + list_section(codex_heading(), m.codex).len() + excerpt_heading().len()
        + bullet_lines(m.episodic.take(k)).len()
}

/// The lines of the first `j` items start the lines of all items.
proof fn lemma_bullet_prefix(items: Seq<Seq<char>>, j: int)
    requires
        0 <= j <= items.len(),
    ensures
        bullet_lines(items.take(j)).len() <= bullet_lines(items).len(),
        bullet_lines(items).subrange(0, bullet_lines(items.take(j)).len() as int) == bullet_lines(
            items.take(j),
        ),
    decreases items.len(),
{
    if j == items.len() {
        assert(items.take(j) =~= items);
        assert(bullet_lines(items).subrange(0, bullet_lines(items).len() as int) =~= bullet_lines(items));
    } else {
        let d = items.drop_last();
        lemma_bullet_prefix(d, j);
        assert(d.take(j) =~= items.take(j));
        let p = bullet_lines(items.take(j));
        assert(bullet_lines(items) == bullet_lines(d) + item_line(items.last()));
        assert(bullet_lines(items).subrange(0, p.len() as int) =~= bullet_lines(d).subrange(
            0,
            p.len() as int,
        ));
    }
}

/// The line of the `k`-th item sits where the lines before it end.
proof fn lemma_bullet_line(items: Seq<Seq<char>>, k: int)
    requires
        0 <= k < items.len(),
    ensures
        bullet_lines(items.take(k)).len() + item_line(items[k]).len() <= bullet_lines(items).len(),
        bullet_lines(items).subrange(
            bullet_lines(items.take(k)).len() as int,
            0int + bullet_lines(items.take(k)).len() + item_line(items[k]).len(),
        ) == item_line(items[k]),
{
    lemma_bullet_prefix(items, k + 1);
    let t = items.take(k + 1);
    assert(t.drop_last() =~= items.take(k));
    assert(t.last() == items[k]);
    let b = bullet_lines(items);
    let p = bullet_lines(items.take(k));
    let q = bullet_lines(t);
    assert(q == p + item_line(items[k]));
    assert(b.subrange(p.len() as int, 0int + p.len() + item_line(items[k]).len()) =~= q.subrange(
        p.len() as int,
        q.len() as int,
    ));
    assert(q.subrange(p.len() as int, q.len() as int) =~= item_line(items[k]));
}

/// The `k`-th item's line sits in a block `pre + heading + its lines + post`
/// right after `pre`, the heading and the lines of the items before it.
proof fn lemma_item_in_block(
    r: Seq<char>,
    pre: Seq<char>,
    heading: Seq<char>,
    items: Seq<Seq<char>>,
    post: Seq<char>,
    k: int,
)
    requires
        0 <= k < items.len(),
        r == pre + (heading + bullet_lines(items)) + post,
    ensures
        r.subrange(
            0int + pre.len() + heading.len() + bullet_lines(items.take(k)).len(),
            0int + pre.len() + heading.len() + bullet_lines(items.take(k)).len() + item_line(items[k]).len(),
        ) == item_line(items[k]),
{
    lemma_bullet_line(items, k);
    let bl = bullet_lines(items);
    let off = 0int + pre.len() + heading.len();
    let p = bullet_lines(items.take(k)).len() as int;
    let n = item_line(items[k]).len() as int;
    assert(r.subrange(off + p, off + p + n) =~= bl.subrange(p, p + n));
}

/// The layout of a memory block: the block is empty exactly when nothing
/// was retrieved. Otherwise it starts with the header, followed by the
/// project synopsis line and the document synopsis line when they are
/// present, then one `- item` line per codex snippet and after them one
/// per excerpt, each in order.
pub proof fn lemma_memory_layout(m: MemoryView)
    ensures
        (rendered_memory(m).len() == 0) <==> memory_empty(m),
        !memory_empty(m) ==> rendered_memory(m).subrange(0, memory_header().len() as int)
            == memory_header(),
        !memory_empty(m) ==> (m.project_synopsis matches Some(s) ==> rendered_memory(m).subrange(
            memory_header().len() as int,
            0int + memory_header().len() + project_label().len() + s.len() + 1,
        ) == project_label() + s + seq!['\n']),
        !memory_empty(m) ==> (m.doc_synopsis matches Some(s) ==> ({
            let at = 0int + memory_header().len() + synopsis_line(project_label(), m.project_synopsis).len();
            rendered_memory(m).subrange(at, at + doc_label().len() + s.len() + 1) == doc_label() + s
                + seq!['\n']
        })),
        !memory_empty(m) ==> forall|k: int|
            0 <= k < m.codex.len() ==> rendered_memory(m).subrange(
                codex_line_at(m, k),
                codex_line_at(m, k) + item_line(m.codex[k]).len(),
            ) == item_line(#[trigger] m.codex[k]),
        !memory_empty(m) ==> forall|k: int|
            0 <= k < m.episodic.len() ==> rendered_memory(m).subrange(
                excerpt_line_at(m, k),
                excerpt_line_at(m, k) + item_line(m.episodic[k]).len(),
            ) == item_line(#[trigger] m.episodic[k]),
        forall|j: int|
            0 <= j < m.codex.len() ==> codex_line_at(m, j) + item_line(#[trigger] m.codex[j]).len()
                <= excerpts_start(m),
        forall|k: int| 0 <= k < m.episodic.len() ==> excerpts_start(m) <= #[trigger] excerpt_line_at(m, k),
        forall|j: int, k: int|
            #![trigger codex_line_at(m, j), codex_line_at(m, k)]
            0 <= j < k < m.codex.len() ==> codex_line_at(m, j) + item_line(m.codex[j]).len()
                <= codex_line_at(m, k),
        forall|j: int, k: int|
            #![trigger excerpt_line_at(m, j), excerpt_line_at(m, k)]
            0 <= j < k < m.episodic.len() ==> excerpt_line_at(m, j) + item_line(m.episodic[j]).len()
                <= excerpt_line_at(m, k),
{
    lemma_layout_head(m);
    lemma_layout_codex(m);
    lemma_layout_excerpts(m);
    lemma_codex_lines_first(m);
    reveal(codex_line_at);
    reveal(excerpt_line_at);
    assert forall|j: int, k: int|
        #![trigger codex_line_at(m, j), codex_line_at(m, k)]
        0 <= j < k < m.codex.len() implies codex_line_at(m, j) + item_line(m.codex[j]).len()
            <= codex_line_at(m, k) by {
        lemma_lines_in_order(m.codex, j, k);
    }
    assert forall|j: int, k: int|
        #![trigger excerpt_line_at(m, j), excerpt_line_at(m, k)]
        0 <= j < k < m.episodic.len() implies excerpt_line_at(m, j) + item_line(m.episodic[j]).len()
            <= excerpt_line_at(m, k) by {
        lemma_lines_in_order(m.episodic, j, k);
    }
}

/// The line of an item ends before the lines of later items start.
proof fn lemma_lines_in_order(items: Seq<Seq<char>>, j: int, k: int)
    requires
        0 <= j < k <= items.len(),
    ensures
        bullet_lines(items.take(j)).len() + item_line(items[j]).len() <= bullet_lines(items.take(k)).len(),
{
    let t = items.take(k);
    lemma_bullet_line(t, j);
    assert(t.take(j) =~= items.take(j));
    assert(t[j] == items[j]);
}

/// Every codex line ends where the excerpts start or before, and every
/// excerpt line starts there or after.
proof fn lemma_codex_lines_first(m: MemoryView)
    ensures
        forall|j: int|
            0 <= j < m.codex.len() ==> codex_line_at(m, j) + item_line(#[trigger] m.codex[j]).len()
                <= excerpts_start(m),
        forall|k: int| 0 <= k < m.episodic.len() ==> excerpts_start(m) <= #[trigger] excerpt_line_at(m, k),
{
    reveal(excerpt_line_at);
    assert forall|j: int| 0 <= j < m.codex.len() implies codex_line_at(m, j) + item_line(
        #[trigger] m.codex[j],
    ).len() <= excerpts_start(m) by {
        lemma_codex_line_before(m, j);
    }
}

/// The block as its five parts.
proof fn lemma_layout_parts(m: MemoryView)
    requires
        !memory_empty(m),
    ensures
        rendered_memory(m) == memory_header() + synopsis_line(project_label(), m.project_synopsis)
            + synopsis_line(doc_label(), m.doc_synopsis) + list_section(codex_heading(), m.codex)
            + list_section(excerpt_heading(), m.episodic),
{
}

/// The emptiness, the header and the synopsis lines of a block.
proof fn lemma_layout_head(m: MemoryView)
    ensures
        (rendered_memory(m).len() == 0) <==> memory_empty(m),
        !memory_empty(m) ==> rendered_memory(m).subrange(0, memory_header().len() as int)
            == memory_header(),
        !memory_empty(m) ==> (m.project_synopsis matches Some(s) ==> rendered_memory(m).subrange(
            memory_header().len() as int,
            0int + memory_header().len() + project_label().len() + s.len() + 1,
        ) == project_label() + s + seq!['\n']),
        !memory_empty(m) ==> (m.doc_synopsis matches Some(s) ==> ({
            let at = 0int + memory_header().len() + synopsis_line(project_label(), m.project_synopsis).len();
            rendered_memory(m).subrange(at, at + doc_label().len() + s.len() + 1) == doc_label() + s
                + seq!['\n']
        })),
{
    if !memory_empty(m) {
        let r = rendered_memory(m);
        let h = memory_header();
        let a = synopsis_line(project_label(), m.project_synopsis);
        let b = synopsis_line(doc_label(), m.doc_synopsis);
        let rest = list_section(codex_heading(), m.codex) + list_section(excerpt_heading(), m.episodic);
        lemma_layout_parts(m);
        assert(r =~= h + a + b + rest);
        reveal_strlit("== Memoria del proyecto ==\n");
        assert(r.subrange(0, h.len() as int) =~= h);
        assert(r.subrange(h.len() as int, 0int + h.len() + a.len()) =~= a);
        assert(r.subrange(0int + h.len() + a.len(), 0int + h.len() + a.len() + b.len()) =~= b);
    }
}

/// The codex lines of a block.
proof fn lemma_layout_codex(m: MemoryView)
    ensures
        !memory_empty(m) ==> forall|k: int|
            0 <= k < m.codex.len() ==> rendered_memory(m).subrange(
                codex_line_at(m, k),
                codex_line_at(m, k) + item_line(m.codex[k]).len(),
            ) == item_line(#[trigger] m.codex[k]),
{
    if !memory_empty(m) {
        let r = rendered_memory(m);
        let pre = memory_header() + synopsis_line(project_label(), m.project_synopsis) + synopsis_line(
            doc_label(),
            m.doc_synopsis,
        );
        let post = list_section(excerpt_heading(), m.episodic);
        lemma_layout_parts(m);
        reveal(codex_line_at);
        assert forall|k: int| 0 <= k < m.codex.len() implies r.subrange(
            codex_line_at(m, k),
            codex_line_at(m, k) + item_line(m.codex[k]).len(),
        ) == item_line(#[trigger] m.codex[k]) by {
            assert(r =~= pre + (codex_heading() + bullet_lines(m.codex)) + post);
            lemma_item_in_block(r, pre, codex_heading(), m.codex, post, k);
        }
    }
}

/// The excerpt lines of a block.
proof fn lemma_layout_excerpts(m: MemoryView)
    ensures
        !memory_empty(m) ==> forall|k: int|
            0 <= k < m.episodic.len() ==> rendered_memory(m).subrange(
                excerpt_line_at(m, k),
                excerpt_line_at(m, k) + item_line(m.episodic[k]).len(),
            ) == item_line(#[trigger] m.episodic[k]),
{
    if !memory_empty(m) {
        let r = rendered_memory(m);
        let pre = memory_header() + synopsis_line(project_label(), m.project_synopsis) + synopsis_line(
            doc_label(),
            m.doc_synopsis,
        ) + list_section(codex_heading(), m.codex);
        lemma_layout_parts(m);
        reveal(excerpt_line_at);
        assert forall|k: int| 0 <= k < m.episodic.len() implies r.subrange(
            excerpt_line_at(m, k),
            excerpt_line_at(m, k) + item_line(m.episodic[k]).len(),
        ) == item_line(#[trigger] m.episodic[k]) by {
            assert(r =~= pre + (excerpt_heading() + bullet_lines(m.episodic)) + Seq::<char>::empty());
            lemma_item_in_block(r, pre, excerpt_heading(), m.episodic, Seq::<char>::empty(), k);
        }
    }
}

/// A codex line ends before the excerpts start.
proof fn lemma_codex_line_before(m: MemoryView, j: int)
    requires
        0 <= j < m.codex.len(),
    ensures
        codex_line_at(m, j) + item_line(m.codex[j]).len() <= excerpts_start(m),
{
    reveal(codex_line_at);
    lemma_bullet_line(m.codex, j);
    let c = list_section(codex_heading(), m.codex);
    assert(c == codex_heading() + bullet_lines(m.codex));
    assert(c.len() == codex_heading().len() + bullet_lines(m.codex).len());
}

/// Append `- item` lines.
fn push_bullets(out: &mut String, items: &Vec<String>)
    ensures
        final(out)@ == old(out)@ + bullet_lines(string_views(items@)),
{
    let mut i: usize = 0;
    while i < items.len()
        invariant
            i <= items@.len(),
            out@ == old(out)@ + bullet_lines(string_views(items@).take(i as int)),
        decreases items@.len() - i,
    {
        let ghost before = out@;
        out.append("- ");
        out.append(items[i].as_str());
        crate::text::push_char(out, '\n');
        proof {
            let t = string_views(items@).take(i + 1);
            assert(t.drop_last() =~= string_views(items@).take(i as int));
            assert(t.last() == items@[i as int]@);
            assert(out@ =~= old(out)@ + bullet_lines(t));
        }
        i += 1;
    }
    assert(string_views(items@).take(items@.len() as int) =~= string_views(items@));
}

impl MemoryContext {
    /// Nothing was retrieved.
    pub fn is_empty(&self) -> (r: bool)
        ensures
            r == memory_empty(self@),
    {
        self.project_synopsis.is_none() && self.doc_synopsis.is_none() && self.codex_snippets.len()
            == 0 && self.episodic_excerpts.len() == 0
    }

    /// The prompt block; an empty context renders to an empty string so
    /// callers can omit the section.
    pub fn render(&self) -> (r: String)
        ensures
            r@ == rendered_memory(self@),
    {
        if self.is_empty() {
            return String::new();
        }
        let mut out = String::from_str("== Memoria del proyecto ==\n");
        let ghost s0 = out@;
        match &self.project_synopsis {
            Some(s) => {
                out.append("Sinopsis del proyecto: ");
                out.append(s.as_str());
                crate::text::push_char(&mut out, '\n');
            },
            None => {},
        }
        let ghost s1 = out@;
        match &self.doc_synopsis {
            Some(s) => {
                out.append("Sinopsis del documento actual: ");
                out.append(s.as_str());
                crate::text::push_char(&mut out, '\n');
            },
            None => {},
        }
        let ghost s2 = out@;
        if self.codex_snippets.len() > 0 {
            out.append("\nEntradas del codex relevantes:\n");
            push_bullets(&mut out, &self.codex_snippets);
        }
        let ghost s3 = out@;
        if self.episodic_excerpts.len() > 0 {
            out.append("\nPasajes anteriores relevantes:\n");
            push_bullets(&mut out, &self.episodic_excerpts);
        }
        proof {
            let m = self@;
            let a = match m.project_synopsis {
                Some(s) => "Sinopsis del proyecto: "@ + s + seq!['\n'],
                None => Seq::empty(),
            };
            let b = match m.doc_synopsis {
                Some(s) => "Sinopsis del documento actual: "@ + s + seq!['\n'],
                None => Seq::empty(),
            };
            let c = if m.codex.len() > 0 {
                "\nEntradas del codex relevantes:\n"@ + bullet_lines(m.codex)
            } else {
                Seq::empty()
            };
            let d = if m.episodic.len() > 0 {
                "\nPasajes anteriores relevantes:\n"@ + bullet_lines(m.episodic)
            } else {
                Seq::empty()
            };
            assert(s1 =~= s0 + a);
            assert(s2 =~= s1 + b);
            assert(s3 =~= s2 + c);
            assert(out@ =~= s3 + d);
            assert(out@ =~= "== Memoria del proyecto ==\n"@ + a + b + c + d);
        }
        out
    }
}

/// The codex entry is named (case-insensitively) in the window.
pub open spec fn is_mentioned(window_lc: Seq<char>, e: CodexEntry) -> bool {
    let n = lowercase(e.name@);
    n.len() > 0 && contains(window_lc, n)
}

/// The snippet of a codex entry: `name (kind): body [tags: a, b]`, the
/// body trimmed (a dash when absent), the tag part only with tags.
pub open spec fn codex_snippet(e: CodexEntry) -> Seq<char> {
    let body = match e.body {
        Some(b) => trim(b@),
        None => "—"@,
    };
    let tags = if e.tags@.len() == 0 {
        Seq::empty()
    } else {
        " [tags: "@ + join(string_views(e.tags@), ", "@) + "]"@
    };
    e.name@ + " ("@ + e.kind.spec_as_str() + "): "@ + body + tags
}

/// The snippets and names of the entries mentioned in the window, in order.
pub open spec fn mentioned_entries(entries: Seq<CodexEntry>, window_lc: Seq<char>) -> (
    Seq<Seq<char>>,
    Seq<Seq<char>>,
)
    decreases entries.len(),
{
    if entries.len() == 0 {
        (Seq::empty(), Seq::empty())
    } else {
        let (s, n) = mentioned_entries(entries.drop_last(), window_lc);
        let e = entries.last();
        if is_mentioned(window_lc, e) {
            (s.push(codex_snippet(e)), n.push(e.name@))
        } else {
            (s, n)
        }
    }
}

/// Build the snippet of a codex entry.
fn make_snippet(e: &CodexEntry) -> (r: String)
    ensures
        r@ == codex_snippet(*e),
{
    let mut s = String::from_str(e.name.as_str());
    s.append(" (");
    s.append(e.kind.as_str());
    s.append("): ");
    match &e.body {
        Some(b) => {
            let t = trim_str(b.as_str());
            let ts = string_of(&t);
            s.append(ts.as_str());
        },
        None => s.append("—"),
    }
    if e.tags.len() > 0 {
        s.append(" [tags: ");
        let j = join_strings(&e.tags, ", ");
        s.append(j.as_str());
        s.append("]");
    }
    s
}

/// The snippets and names of the codex entries the window mentions.
pub fn codex_snippets(entries: &[CodexEntry], window_text: &str) -> (r: (Vec<String>, Vec<String>))
    ensures
        (string_views(r.0@), string_views(r.1@)) == mentioned_entries(entries@, lowercase(window_text@)),
{
    let wl = chars_of(to_lowercase(window_text).as_str());
    let mut snippets: Vec<String> = Vec::new();
    let mut names: Vec<String> = Vec::new();
    let mut i: usize = 0;
    while i < entries.len()
        invariant
            i <= entries@.len(),
            wl@ == lowercase(window_text@),
            (string_views(snippets@), string_views(names@)) == mentioned_entries(
                entries@.take(i as int),
                wl@,
            ),
        decreases entries@.len() - i,
    {
        let e = &entries[i];
        proof {
            assert(entries@.take(i + 1).drop_last() =~= entries@.take(i as int));
            assert(entries@.take(i + 1).last() == *e);
        }
        let n = chars_of(to_lowercase(e.name.as_str()).as_str());
        if n.len() > 0 && contains_exec(&wl, &n) {
            let sn = make_snippet(e);
            let ghost s0 = string_views(snippets@);
            let ghost n0 = string_views(names@);
            snippets.push(sn);
            names.push(e.name.clone());
            assert(string_views(snippets@) =~= s0.push(sn@));
            assert(string_views(names@) =~= n0.push(e.name@));
        }
        i += 1;
    }
    assert(entries@.take(entries@.len() as int) =~= entries@);
    (snippets, names)
}

/// Maximum number of episodic excerpts.
pub const MAX_EPISODIC: usize = 5;

/// Character cap of one excerpt.
pub const EXCERPT_CHARS: usize = 300;

/// A search excerpt without its `<mark>` highlights, trimmed and capped.
pub open spec fn cleaned_excerpt(raw: Seq<char>) -> Seq<char> {
    let stripped = replace_all(replace_all(raw, "<mark>"@, Seq::empty()), "</mark>"@, Seq::empty());
    truncated(trim(stripped), 300)
}

/// Strip the highlight marks of a search excerpt and clamp its length.
pub fn clean_excerpt(raw: &str) -> (r: String)
    ensures
        r@ == cleaned_excerpt(raw@),
{
    let v = chars_of(raw);
    let empty: Vec<char> = Vec::new();
    let a = replace_all_exec(&v, &chars_of("<mark>"), &empty);
    let b = replace_all_exec(&a, &chars_of("</mark>"), &empty);
    let t = trim_chars(&b);
    crate::ai_validators::truncate(&t, EXCERPT_CHARS)
}

/// The first hit from `j` on that is neither the current document nor one
/// already used.
pub open spec fn first_new_hit(
    hits: Seq<SearchHit>,
    doc_id: Option<Seq<char>>,
    seen: Seq<Seq<char>>,
    j: int,
) -> Option<int>
    decreases hits.len() - j,
{
    if j < 0 || j >= hits.len() {
        None
    } else if doc_id == Some(hits[j].document_id@) || seen.contains(hits[j].document_id@) {
        first_new_hit(hits, doc_id, seen, j + 1)
    } else {
        Some(j)
    }
}

/// Episodic excerpts: for each mentioned name in turn, while fewer than
/// five excerpts are held, the first hit from another, not yet used
/// document gives `«title» — excerpt` (when its cleaned excerpt is not
/// empty) and marks the document used.
pub open spec fn episodic_from(
    hits: Seq<Seq<SearchHit>>,
    doc_id: Option<Seq<char>>,
    k: int,
    seen: Seq<Seq<char>>,
    acc: Seq<Seq<char>>,
) -> Seq<Seq<char>>
    decreases hits.len() - k,
{
    if k < 0 || k >= hits.len() || acc.len() >= 5 {
        acc
    } else {
        match first_new_hit(hits[k], doc_id, seen, 0) {
            None => episodic_from(hits, doc_id, k + 1, seen, acc),
            Some(j) => {
                let h = hits[k][j];
                let ex = cleaned_excerpt(h.excerpt@);
                let acc2 = if ex.len() > 0 {
                    acc.push("«"@ + h.title@ + "» — "@ + ex)
                } else {
                    acc
                };
                episodic_from(hits, doc_id, k + 1, seen.push(h.document_id@), acc2)
            },
        }
    }
}

/// The excerpt line a hit gives: `«title» — ` and its cleaned excerpt.
pub open spec fn hit_line(h: SearchHit) -> Seq<char> {
    "«"@ + h.title@ + "» — "@ + cleaned_excerpt(h.excerpt@)
}

/// `src` names, for each excerpt of `out` in turn, the hit (name index,
/// hit index) it was taken from: a hit of another document than `doc_id`,
/// the names taken in order, and no two excerpts from the same document.
pub open spec fn excerpt_sources(
    hits: Seq<Seq<SearchHit>>,
    doc_id: Option<Seq<char>>,
    out: Seq<Seq<char>>,
    src: Seq<(int, int)>,
) -> bool {
    &&& src.len() == out.len()
    &&& forall|i: int|
        #![trigger src[i]]
        0 <= i < src.len() ==> {
            &&& 0 <= src[i].0 < hits.len()
            &&& 0 <= src[i].1 < hits[src[i].0].len()
            &&& out[i] == hit_line(hits[src[i].0][src[i].1])
            &&& doc_id != Some(hits[src[i].0][src[i].1].document_id@)
        }
    &&& forall|i: int, t: int|
        #![trigger src[i], src[t]]
        0 <= i < t < src.len() ==> src[i].0 < src[t].0 && hits[src[i].0][src[i].1].document_id@
            != hits[src[t].0][src[t].1].document_id@
}

proof fn lemma_first_new_hit(hits: Seq<SearchHit>, doc_id: Option<Seq<char>>, seen: Seq<Seq<char>>, j: int)
    ensures
        first_new_hit(hits, doc_id, seen, j) matches Some(t) ==> 0 <= t < hits.len() && doc_id != Some(
            hits[t].document_id@,
        ) && !seen.contains(hits[t].document_id@),
    decreases hits.len() - j,
{
    if !(j < 0 || j >= hits.len()) {
        lemma_first_new_hit(hits, doc_id, seen, j + 1);
    }
}

proof fn lemma_episodic_sources(
    hits: Seq<Seq<SearchHit>>,
    doc_id: Option<Seq<char>>,
    k: int,
    seen: Seq<Seq<char>>,
    acc: Seq<Seq<char>>,
    src: Seq<(int, int)>,
) -> (src2: Seq<(int, int)>)
    requires
        0 <= k,
        excerpt_sources(hits, doc_id, acc, src),
        forall|i: int| 0 <= i < src.len() ==> src[i].0 < k,
        forall|i: int|
            0 <= i < src.len() ==> seen.contains(#[trigger] hits[src[i].0][src[i].1].document_id@),
    ensures
        excerpt_sources(hits, doc_id, episodic_from(hits, doc_id, k, seen, acc), src2),
    decreases hits.len() - k,
{
    if k >= hits.len() || acc.len() >= 5 {
        src
    } else {
        lemma_first_new_hit(hits[k], doc_id, seen, 0);
        match first_new_hit(hits[k], doc_id, seen, 0) {
            None => lemma_episodic_sources(hits, doc_id, k + 1, seen, acc, src),
            Some(j) => {
                let h = hits[k][j];
                let ex = cleaned_excerpt(h.excerpt@);
                let seen2 = seen.push(h.document_id@);
                assert forall|i: int|
                    0 <= i < src.len() implies seen2.contains(#[trigger] hits[src[i].0][src[i].1].document_id@) by {
                    let id = hits[src[i].0][src[i].1].document_id@;
                    assert(seen.contains(id));
                    let w = choose|w: int| 0 <= w < seen.len() && seen[w] == id;
                    assert(seen2[w] == id);
                }
                if ex.len() > 0 {
                    let acc2 = acc.push("«"@ + h.title@ + "» — "@ + ex);
                    let s2 = src.push((k, j));
                    assert(excerpt_sources(hits, doc_id, acc2, s2)) by {
                        assert forall|i: int| #![trigger s2[i]] 0 <= i < s2.len() implies {
                            &&& 0 <= s2[i].0 < hits.len()
                            &&& 0 <= s2[i].1 < hits[s2[i].0].len()
                            &&& acc2[i] == hit_line(hits[s2[i].0][s2[i].1])
                            &&& doc_id != Some(hits[s2[i].0][s2[i].1].document_id@)
                        } by {
                            if i < src.len() {
                                assert(s2[i] == src[i]);
                                assert(acc2[i] == acc[i]);
                            }
                        }
                        assert forall|i: int, t: int|
                            #![trigger s2[i], s2[t]]
                            0 <= i < t < s2.len() implies s2[i].0 < s2[t].0 && hits[s2[i].0][s2[i].1].document_id@
                                != hits[s2[t].0][s2[t].1].document_id@ by {
                            assert(s2[i] == src[i]);
                            if t < src.len() {
                                assert(s2[t] == src[t]);
                            } else {
                                assert(seen.contains(hits[src[i].0][src[i].1].document_id@));
                            }
                        }
                    }
                    assert forall|i: int|
                        0 <= i < s2.len() implies seen2.contains(#[trigger] hits[s2[i].0][s2[i].1].document_id@) by {
                        if i < src.len() {
                            assert(s2[i] == src[i]);
                        } else {
                            assert(seen2[seen.len() as int] == h.document_id@);
                        }
                    }
                    lemma_episodic_sources(hits, doc_id, k + 1, seen2, acc2, s2)
                } else {
                    lemma_episodic_sources(hits, doc_id, k + 1, seen2, acc, src)
                }
            },
        }
    }
}

/// Each episodic excerpt is the line of a hit from another document than
/// the current one, taken in the order of the names, and no document gives
/// more than one excerpt; there are at most five.
pub proof fn law_excerpts_come_from_distinct_documents(hits: Seq<Seq<SearchHit>>, doc_id: Option<Seq<char>>)
    ensures
        exists|src: Seq<(int, int)>|
            excerpt_sources(hits, doc_id, episodic_from(hits, doc_id, 0, Seq::empty(), Seq::empty()), src),
        episodic_from(hits, doc_id, 0, Seq::empty(), Seq::empty()).len() <= 5,
{
    let src = lemma_episodic_sources(hits, doc_id, 0, Seq::empty(), Seq::empty(), Seq::empty());
    lemma_episodic_len(hits, doc_id, 0, Seq::empty(), Seq::empty());
}

proof fn lemma_episodic_len(
    hits: Seq<Seq<SearchHit>>,
    doc_id: Option<Seq<char>>,
    k: int,
    seen: Seq<Seq<char>>,
    acc: Seq<Seq<char>>,
)
    requires
        acc.len() <= 5,
    ensures
        episodic_from(hits, doc_id, k, seen, acc).len() <= 5,
    decreases hits.len() - k,
{
    if !(k < 0 || k >= hits.len() || acc.len() >= 5) {
        match first_new_hit(hits[k], doc_id, seen, 0) {
            None => lemma_episodic_len(hits, doc_id, k + 1, seen, acc),
            Some(j) => {
                let h = hits[k][j];
                let ex = cleaned_excerpt(h.excerpt@);
                let acc2 = if ex.len() > 0 {
                    acc.push("«"@ + h.title@ + "» — "@ + ex)
                } else {
                    acc
                };
                lemma_episodic_len(hits, doc_id, k + 1, seen.push(h.document_id@), acc2);
            },
        }
    }
}

proof fn lemma_episodic_keeps(
    hits: Seq<Seq<SearchHit>>,
    doc_id: Option<Seq<char>>,
    k: int,
    seen: Seq<Seq<char>>,
    acc: Seq<Seq<char>>,
)
    ensures
        acc.len() <= episodic_from(hits, doc_id, k, seen, acc).len(),
        episodic_from(hits, doc_id, k, seen, acc).take(acc.len() as int) == acc,
    decreases hits.len() - k,
{
    let r = episodic_from(hits, doc_id, k, seen, acc);
    if k < 0 || k >= hits.len() || acc.len() >= 5 {
        assert(r.take(acc.len() as int) =~= acc);
    } else {
        match first_new_hit(hits[k], doc_id, seen, 0) {
            None => lemma_episodic_keeps(hits, doc_id, k + 1, seen, acc),
            Some(j) => {
                let h = hits[k][j];
                let ex = cleaned_excerpt(h.excerpt@);
                let acc2 = if ex.len() > 0 {
                    acc.push("«"@ + h.title@ + "» — "@ + ex)
                } else {
                    acc
                };
                lemma_episodic_keeps(hits, doc_id, k + 1, seen.push(h.document_id@), acc2);
                assert(r.take(acc2.len() as int).take(acc.len() as int) =~= r.take(acc.len() as int));
                assert(acc2.take(acc.len() as int) =~= acc);
            },
        }
    }
}

proof fn lemma_first_new_hit_is(hits: Seq<SearchHit>, doc_id: Option<Seq<char>>, j: int, i: int)
    requires
        0 <= i <= j < hits.len(),
        doc_id != Some(hits[j].document_id@),
        forall|t: int| 0 <= t < j ==> doc_id == Some(#[trigger] hits[t].document_id@),
    ensures
        first_new_hit(hits, doc_id, Seq::empty(), i) == Some(j),
    decreases j - i,
{
    if i < j {
        lemma_first_new_hit_is(hits, doc_id, j, i + 1);
    }
}

/// The first name's first hit from another document than the current one
/// gives the first excerpt, when its cleaned excerpt is not empty.
pub proof fn law_first_name_gives_the_first_excerpt(
    hits: Seq<Seq<SearchHit>>,
    doc_id: Option<Seq<char>>,
    j: int,
)
    requires
        hits.len() > 0,
        0 <= j < hits[0].len(),
        doc_id != Some(hits[0][j].document_id@),
        forall|t: int| 0 <= t < j ==> doc_id == Some(#[trigger] hits[0][t].document_id@),
        cleaned_excerpt(hits[0][j].excerpt@).len() > 0,
    ensures
        episodic_from(hits, doc_id, 0, Seq::empty(), Seq::empty()).len() >= 1,
        episodic_from(hits, doc_id, 0, Seq::empty(), Seq::empty())[0] == hit_line(hits[0][j]),
{
    lemma_first_new_hit_is(hits[0], doc_id, j, 0);
    let h = hits[0][j];
    let acc = Seq::<Seq<char>>::empty().push(hit_line(h));
    lemma_episodic_keeps(hits, doc_id, 1, Seq::<Seq<char>>::empty().push(h.document_id@), acc);
    let r = episodic_from(hits, doc_id, 1, Seq::<Seq<char>>::empty().push(h.document_id@), acc);
    assert(r.take(1)[0] == r[0]);
}

/// The characters of an optional text.
pub open spec fn opt_str(o: Option<&str>) -> Option<Seq<char>> {
    match o {
        Some(s) => Some(s@),
        None => None,
    }
}

/// Whether `v` holds `s`.
fn holds(v: &Vec<String>, s: &str) -> (r: bool)
    ensures
        r == string_views(v@).contains(s@),
{
    let want = chars_of(s);
    let mut i: usize = 0;
    while i < v.len()
        invariant
            i <= v@.len(),
            want@ == s@,
            forall|t: int| 0 <= t < i ==> v@[t]@ != s@,
        decreases v@.len() - i,
    {
        if chars_eq(&chars_of(v[i].as_str()), &want) {
            assert(string_views(v@)[i as int] == s@);
            return true;
        }
        i += 1;
    }
    proof {
        if string_views(v@).contains(s@) {
            let t = choose|t: int| 0 <= t < string_views(v@).len() && string_views(v@)[t] == s@;
            assert(v@[t]@ == s@);
        }
    }
    false
}

/// Pick the episodic excerpts from the search hits of each mentioned name
/// (`hits[k]` answers the `k`-th name).
pub fn episodic_excerpts(hits: &Vec<Vec<SearchHit>>, doc_id: Option<&str>) -> (r: Vec<String>)
    ensures
        string_views(r@) == episodic_from(hits@.map_values(|v: Vec<SearchHit>| v@), opt_str(doc_id), 0, Seq::empty(), Seq::empty()),
{
    let ghost hv = hits@.map_values(|v: Vec<SearchHit>| v@);
    let ghost did = opt_str(doc_id);
    let mut out: Vec<String> = Vec::new();
    let mut seen: Vec<String> = Vec::new();
    let mut k: usize = 0;
    assert(string_views(seen@) =~= Seq::<Seq<char>>::empty());
    assert(string_views(out@) =~= Seq::<Seq<char>>::empty());
    while k < hits.len() && out.len() < MAX_EPISODIC
        invariant
            k <= hits@.len(),
            hv == hits@.map_values(|v: Vec<SearchHit>| v@),
            did == opt_str(doc_id),
            episodic_from(hv, did, k as int, string_views(seen@), string_views(out@)) == episodic_from(
                hv,
                did,
                0,
                Seq::empty(),
                Seq::empty(),
            ),
        decreases hits@.len() - k,
    {
        let hs = &hits[k];
        assert(hv[k as int] == hs@);
        let mut j: usize = 0;
        let mut found: Option<usize> = None;
        while j < hs.len()
            invariant_except_break
                found is None,
            invariant
                j <= hs@.len(),
                did == opt_str(doc_id),
                first_new_hit(hs@, did, string_views(seen@), 0) == first_new_hit(hs@, did, string_views(seen@), j as int),
            ensures
                match found {
                    Some(x) => x < hs@.len() && first_new_hit(hs@, did, string_views(seen@), 0) == Some(x as int),
                    None => first_new_hit(hs@, did, string_views(seen@), 0) is None,
                },
            decreases hs@.len() - j,
        {
            let h = &hs[j];
            let is_current = match doc_id {
                Some(d) => crate::text::str_eq(d, h.document_id.as_str()),
                None => false,
            };
            if !is_current && !holds(&seen, h.document_id.as_str()) {
                found = Some(j);
                break;
            }
            j += 1;
        }
        match found {
            Some(x) => {
                let h = &hs[x];
                let ex = clean_excerpt(h.excerpt.as_str());
                let ghost o0 = string_views(out@);
                let ghost s0 = string_views(seen@);
                if ex.as_str().unicode_len() > 0 {
                    let mut line = String::from_str("«");
                    line.append(h.title.as_str());
                    line.append("» — ");
                    line.append(ex.as_str());
                    out.push(line);
                    assert(string_views(out@) =~= o0.push("«"@ + h.title@ + "» — "@ + ex@));
                }
                seen.push(h.document_id.clone());
                assert(string_views(seen@) =~= s0.push(h.document_id@));
            },
            None => {},
        }
        k += 1;
    }
    out
}

/// A synopsis kept only when it has a non-blank character.
pub open spec fn non_blank_synopsis(o: Option<String>) -> Option<Seq<char>> {
    match o {
        Some(s) => if trim(s@).len() > 0 {
            Some(s@)
        } else {
            None
        },
        None => None,
    }
}

/// A copy of an optional text when it is not blank.
fn keep_if_not_blank(o: &Option<String>) -> (r: Option<String>)
    ensures
        opt_chars(r) == non_blank_synopsis(*o),
{
    match o {
        Some(s) => if trim_str(s.as_str()).len() > 0 {
            Some(s.clone())
        } else {
            None
        },
        None => None,
    }
}

/// The context once the episodic excerpts are cut from the end until the
/// rendered block fits the budget (codex and synopses always stay).
pub open spec fn fit_budget(m: MemoryView, budget: u32) -> MemoryView
    decreases m.episodic.len(),
{
    if m.episodic.len() > 0 && spec_estimate_tokens(rendered_memory(m)) > budget {
        fit_budget(MemoryView { episodic: m.episodic.drop_last(), ..m }, budget)
    } else {
        m
    }
}

/// Drop episodic excerpts from the end until the rendered block fits.
pub fn trim_to_budget(ctx: &mut MemoryContext, budget: u32)
    ensures
        final(ctx)@ == fit_budget(old(ctx)@, budget),
{
    while ctx.episodic_excerpts.len() > 0 && estimate_tokens(ctx.render().as_str()) > budget
        invariant
            fit_budget(ctx@, budget) == fit_budget(old(ctx)@, budget),
        decreases ctx.episodic_excerpts@.len(),
    {
        let ghost m0 = ctx@;
        ctx.episodic_excerpts.pop();
        assert(string_views(ctx.episodic_excerpts@) =~= m0.episodic.drop_last());
        assert(ctx@ == MemoryView { episodic: m0.episodic.drop_last(), ..m0 });
    }
}

/// The memory context before budgeting.
pub open spec fn gathered(
    entries: Seq<CodexEntry>,
    window: Seq<char>,
    hits: Seq<Seq<SearchHit>>,
    doc_id: Option<Seq<char>>,
    doc: Option<DocNode>,
    project: Option<Project>,
) -> MemoryView {
    MemoryView {
        project_synopsis: match project {
            Some(p) => match p.metadata {
                Some(m) => non_blank_synopsis(m.synopsis),
                None => None,
            },
            None => None,
        },
        doc_synopsis: match doc {
            Some(d) => non_blank_synopsis(d.synopsis),
            None => None,
        },
        codex: mentioned_entries(entries, lowercase(window)).0,
        episodic: episodic_from(hits, doc_id, 0, Seq::empty(), Seq::empty()),
    }
}

/// Assemble the memory context from the fetched rows: the codex entries
/// of the project, the search hits of each name `codex_snippets` reported
/// mentioned (in that order), the current document and the project.
pub fn assemble_context(
    req: &MemoryRequest,
    entries: &[CodexEntry],
    hits: &Vec<Vec<SearchHit>>,
    doc: &Option<DocNode>,
    project: &Option<Project>,
) -> (r: MemoryContext)
    ensures
        r@ == fit_budget(
            gathered(
                entries@,
                req.window_text@,
                hits@.map_values(|v: Vec<SearchHit>| v@),
                opt_chars(req.doc_id),
                *doc,
                *project,
            ),
            req.token_budget,
        ),
{
    let (snippets, _names) = codex_snippets(entries, req.window_text.as_str());
    let doc_id: Option<&str> = match &req.doc_id {
        Some(d) => Some(d.as_str()),
        None => None,
    };
    let episodic = episodic_excerpts(hits, doc_id);
    let doc_synopsis = match doc {
        Some(d) => keep_if_not_blank(&d.synopsis),
        None => None,
    };
    let project_synopsis = match project {
        Some(p) => match &p.metadata {
            Some(m) => keep_if_not_blank(&m.synopsis),
            None => None,
        },
        None => None,
    };
    let mut ctx = MemoryContext {
        project_synopsis,
        doc_synopsis,
        codex_snippets: snippets,
        episodic_excerpts: episodic,
    };
    assert(opt_str(doc_id) == opt_chars(req.doc_id));
    trim_to_budget(&mut ctx, req.token_budget);
    ctx
}

/// Builds the memory context of an AI request.
pub trait ProjectMemoryService {
    /// The context for a request: codex snippets, earlier passages and the
    /// project summary, within the token budget.
    fn build_context(&self, req: &MemoryRequest) -> AppResult<MemoryContext>;
}

} // verus!
