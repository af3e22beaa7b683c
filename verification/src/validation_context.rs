//! Assembles the input of a validation run (document text, codex block,
//! voice anchor) from rows the caller fetched, with character caps so the
//! prompts stay bounded whatever the chapter size.
use vstd::prelude::*;
use vstd::string::*;

use crate::ai_validators::{truncate, truncated, ValidationInput};
use crate::domain::{CodexEntry, DocNode, DocumentType};
use crate::exporter::util::{insert_by_pos_exec, sort_by_pos};
use crate::segments::{fields, fields_exec, views, Sep};
use crate::text::{chars_of, join, join_strings, string_of, string_views};

verus! {

/// The characters outside `<…>` tags, and whether the text ends inside one.
pub open spec fn outside_tags(s: Seq<char>) -> (Seq<char>, bool)
    decreases s.len(),
{
    if s.len() == 0 {
        (Seq::empty(), false)
    } else {
        let (out, in_tag) = outside_tags(s.drop_last());
        let c = s.last();
        if c == '<' {
            (out, true)
        } else if c == '>' {
            (out, false)
        } else if !in_tag {
            (out.push(c), in_tag)
        } else {
            (out, in_tag)
        }
    }
}

/// Plain text of HTML: tags removed, white space runs collapsed to one
/// space, no leading or trailing space.
pub open spec fn plain_text(html: Seq<char>) -> Seq<char> {
    join(fields(outside_tags(html).0, Sep::Whitespace), " "@)
}

/// Join character vectors with a separator.
fn join_chars(parts: &Vec<Vec<char>>, sep: &str) -> (r: String)
    ensures
        r@ == join(views(parts@), sep@),
{
    let mut strings: Vec<String> = Vec::new();
    let mut i: usize = 0;
    while i < parts.len()
        invariant
            i <= parts@.len(),
            string_views(strings@) == views(parts@).take(i as int),
        decreases parts@.len() - i,
    {
        let s = string_of(&parts[i]);
        let ghost before = string_views(strings@);
        let ghost sv = s@;
        strings.push(s);
        assert(string_views(strings@) =~= before.push(sv));
        assert(string_views(strings@) =~= views(parts@).take(i + 1));
        i += 1;
    }
    assert(views(parts@).take(parts@.len() as int) =~= views(parts@));
    join_strings(&strings, sep)
}

/// Strip HTML tags and collapse white space, for the model.
pub fn strip_html(html: &str) -> (r: String)
    ensures
        r@ == plain_text(html@),
{
    let v = chars_of(html);
    let mut out: Vec<char> = Vec::new();
    let mut in_tag = false;
    let mut i: usize = 0;
    while i < v.len()
        invariant
            i <= v@.len(),
            (out@, in_tag) == outside_tags(v@.take(i as int)),
        decreases v@.len() - i,
    {
        let c = v[i];
        assert(v@.take(i + 1).drop_last() =~= v@.take(i as int));
        if c == '<' {
            in_tag = true;
        } else if c == '>' {
            in_tag = false;
        } else if !in_tag {
            out.push(c);
        }
        i += 1;
    }
    assert(v@.take(v@.len() as int) =~= v@);
    let words = fields_exec(&out, Sep::Whitespace);
    join_chars(&words, " ")
}

/// The codex line of an entry: `- name (kind): body [tags: a, b]`, the
/// body as stored (a dash when absent).
pub open spec fn codex_line(e: CodexEntry) -> Seq<char> {
    let body = match e.body {
        Some(b) => b@,
        None => "—"@,
    };
    let tags = if e.tags@.len() == 0 {
        Seq::empty()
    } else {
        " [tags: "@ + join(string_views(e.tags@), ", "@) + "]"@
    };
    "- "@ + e.name@ + " ("@ + e.kind.spec_as_str() + "): "@ + body + tags
}

/// Indices of the documents that can anchor the voice for `doc`:
/// chapters and scenes with content placed before it.
pub open spec fn prior_indices(docs: Seq<DocNode>, doc: DocNode) -> Seq<int>
    decreases docs.len(),
{
    if docs.len() == 0 {
        Seq::empty()
    } else {
        let prev = prior_indices(docs.drop_last(), doc);
        let d = docs.last();
        if d.position < doc.position && (d.doc_type == DocumentType::Chapter || d.doc_type
            == DocumentType::Scene) && d.content is Some {
            prev.push(docs.len() - 1)
        } else {
            prev
        }
    }
}

/// The plain text of a document's content (empty without content).
pub open spec fn content_plain(d: DocNode) -> Seq<char> {
    plain_text(
        match d.content {
            Some(c) => c@,
            None => Seq::empty(),
        },
    )
}

/// The voice anchor: the last `n` prior chapters and scenes by position
/// (stable among equals), as plain text separated by blank lines.
pub open spec fn anchor_text(docs: Seq<DocNode>, doc: DocNode, n: nat) -> Seq<char> {
    let sorted = sort_by_pos(docs, prior_indices(docs, doc));
    let start = if sorted.len() > n {
        sorted.len() - n
    } else {
        0
    };
    join(sorted.skip(start).map_values(|i: int| content_plain(docs[i])), "\n\n"@)
}

/// Builds validation inputs with character caps.
#[derive(Debug, Clone, Copy)]
pub struct ValidationContextBuilder {
    pub text_cap: usize,
    pub codex_cap: usize,
    pub anchor_cap: usize,
    pub anchor_docs: usize,
}

impl Default for ValidationContextBuilder {
    /// 12000 characters of text, 4000 of codex, 4000 of anchor from the
    /// last three documents.
    fn default() -> (r: Self)
        ensures
            r.text_cap == 12000,
            r.codex_cap == 4000,
            r.anchor_cap == 4000,
            r.anchor_docs == 3,
    {
        ValidationContextBuilder { text_cap: 12000, codex_cap: 4000, anchor_cap: 4000, anchor_docs: 3 }
    }
}

impl ValidationContextBuilder {
    /// Assemble the context for `doc`: its plain text, the codex block of
    /// every entry, and the voice anchor from `documents`; each capped.
    pub fn build(&self, doc: &DocNode, codex: &[CodexEntry], documents: &[DocNode]) -> (r: ValidationInput)
        ensures
            r.text@ == truncated(content_plain(*doc), self.text_cap as nat),
            r.codex_block@ == truncated(
                join(codex@.map_values(|e: CodexEntry| codex_line(e)), "\n"@),
                self.codex_cap as nat,
            ),
            r.anchor_text@ == truncated(
                anchor_text(documents@, *doc, self.anchor_docs as nat),
                self.anchor_cap as nat,
            ),
    {
        let content: &str = match &doc.content {
            Some(c) => c.as_str(),
            None => "",
        };
        let plain = strip_html(content);
        proof {
            if doc.content is None {
                reveal_strlit("");
            }
        }
        let text = truncate(&chars_of(plain.as_str()), self.text_cap);
        // Codex block.
        let mut lines: Vec<String> = Vec::new();
        let ghost cl = codex@.map_values(|e: CodexEntry| codex_line(e));
        let mut i: usize = 0;
        while i < codex.len()
            invariant
                i <= codex@.len(),
                cl == codex@.map_values(|e: CodexEntry| codex_line(e)),
                string_views(lines@) == cl.take(i as int),
            decreases codex@.len() - i,
        {
            let e = &codex[i];
            let mut line = String::from_str("- ");
            line.append(e.name.as_str());
            line.append(" (");
            line.append(e.kind.as_str());
            line.append("): ");
            match &e.body {
                Some(b) => line.append(b.as_str()),
                None => line.append("—"),
            }
            if e.tags.len() > 0 {
                line.append(" [tags: ");
                let j = join_strings(&e.tags, ", ");
                line.append(j.as_str());
                line.append("]");
            }
            let ghost before = string_views(lines@);
            let ghost lv = line@;
            assert(lv =~= codex_line(*e));
            lines.push(line);
            assert(string_views(lines@) =~= before.push(lv));
            assert(cl[i as int] == codex_line(*e));
            assert(string_views(lines@) =~= cl.take(i + 1));
            i += 1;
        }
        assert(cl.take(codex@.len() as int) =~= cl);
        let block = join_strings(&lines, "\n");
        let codex_block = truncate(&chars_of(block.as_str()), self.codex_cap);
        // Voice anchor.
        let mut prior: Vec<usize> = Vec::new();
        let mut k: usize = 0;
        while k < documents.len()
            invariant
                k <= documents@.len(),
                forall|t: int| 0 <= t < prior@.len() ==> prior@[t] < documents@.len(),
                prior@.map_values(|v: usize| v as int) == sort_by_pos(
                    documents@,
                    prior_indices(documents@.take(k as int), *doc),
                ),
            decreases documents@.len() - k,
        {
            let d = &documents[k];
            proof {
                assert(documents@.take(k + 1).drop_last() =~= documents@.take(k as int));
                assert(documents@.take(k + 1).last() == *d);
                lemma_prior_indices_prefix(documents@, *doc, k as int);
            }
            let kind_ok = match d.doc_type {
                DocumentType::Chapter | DocumentType::Scene => true,
                _ => false,
            };
            if d.position < doc.position && kind_ok && d.content.is_some() {
                let ghost p0 = prior_indices(documents@.take(k as int), *doc);
                assert(p0.push(k as int).drop_last() =~= p0);
                insert_by_pos_exec(documents, &mut prior, k);
            }
            k += 1;
        }
        assert(documents@.take(documents@.len() as int) =~= documents@);
        let n = prior.len();
        let start = if n > self.anchor_docs {
            n - self.anchor_docs
        } else {
            0
        };
        let ghost sorted = prior@.map_values(|v: usize| v as int);
        let ghost chosen = sorted.skip(start as int).map_values(|i: int| content_plain(documents@[i]));
        let mut texts: Vec<String> = Vec::new();
        let mut j = start;
        while j < n
            invariant
                start <= j <= n,
                n == prior@.len(),
                sorted == prior@.map_values(|v: usize| v as int),
                forall|t: int| 0 <= t < prior@.len() ==> prior@[t] < documents@.len(),
                chosen == sorted.skip(start as int).map_values(|i: int| content_plain(documents@[i])),
                string_views(texts@) == chosen.take(j - start),
            decreases n - j,
        {
            let d = &documents[prior[j]];
            let c: &str = match &d.content {
                Some(c) => c.as_str(),
                None => "",
            };
            let p = strip_html(c);
            proof {
                if d.content is None {
                    reveal_strlit("");
                }
                assert(chosen[j - start] == content_plain(documents@[prior@[j as int] as int]));
            }
            let ghost before = string_views(texts@);
            let ghost pv = p@;
            texts.push(p);
            assert(string_views(texts@) =~= before.push(pv));
            assert(string_views(texts@) =~= chosen.take(j + 1 - start));
            j += 1;
        }
        assert(chosen.take(n - start) =~= chosen);
        let anchor = join_strings(&texts, "\n\n");
        let anchor_text = truncate(&chars_of(anchor.as_str()), self.anchor_cap);
        ValidationInput { text, codex_block, anchor_text }
    }
}

proof fn lemma_prior_indices_prefix(docs: Seq<DocNode>, doc: DocNode, k: int)
    requires
        0 <= k < docs.len(),
    ensures
        prior_indices(docs.take(k + 1), doc) == if ({
            let d = docs[k];
            d.position < doc.position && (d.doc_type == DocumentType::Chapter || d.doc_type
                == DocumentType::Scene) && d.content is Some
        }) {
            prior_indices(docs.take(k), doc).push(k)
        } else {
            prior_indices(docs.take(k), doc)
        },
{
    assert(docs.take(k + 1).drop_last() =~= docs.take(k));
}

} // verus!
