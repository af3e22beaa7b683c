//! Markdown export: one file with YAML front matter, the project title,
//! then every document in binder order as a heading (project `#`, top
//! level `##`, deeper levels one more `#` each up to six) followed by its
//! content converted to Markdown.
use vstd::prelude::*;
use vstd::string::*;

use crate::domain::{DocNode, Project};
use crate::error::AppResult;
use crate::exporter::config::ExportConfig;
use crate::exporter::util::{flatten_in_order, preorder, yaml_escaped, yaml_quote};
use crate::segments::{push_signed_decimal, signed_decimal, utf8_bytes, utf8_encode};
use crate::text::{push_char, string_of, trim, trim_str};

verus! {

/// The Markdown html2md writes for an HTML fragment.
pub uninterp spec fn html_markdown(html: Seq<char>) -> Seq<char>;

/// `html2md::parse_html`. Its tag handlers slice the text they build at
/// byte offsets they record themselves; the source does not show that
/// every input keeps those offsets on character boundaries, so a panic on
/// some input is not ruled out, and no clause here says otherwise.
#[verifier::external_body]
fn html_to_markdown(html: &str) -> (r: String)
    ensures
        r@ == html_markdown(html@),
{
    html2md::parse_html(html)
}

/// `n` copies of `#`.
pub open spec fn hashes(n: nat) -> Seq<char> {
    Seq::new(n, |i: int| '#')
}

/// The heading level of a document at `depth`: two below the project
/// title, at most six.
pub open spec fn heading_level(depth: int) -> nat {
    if depth + 2 < 6 {
        (depth + 2) as nat
    } else {
        6
    }
}

/// The section of one document: its heading, then its content as Markdown
/// (trimmed) when the content is not blank.
pub open spec fn doc_section(d: DocNode, depth: int) -> Seq<char> {
    let head = hashes(heading_level(depth)) + seq![' '] + d.title@ + "\n\n"@;
    match d.content {
        Some(h) => if trim(h@).len() > 0 {
            head + trim(html_markdown(h@)) + "\n\n"@
        } else {
            head
        },
        None => head,
    }
}

/// The sections of the documents listed as `(depth, index)` pairs.
pub open spec fn sections_text(docs: Seq<DocNode>, order: Seq<(int, int)>) -> Seq<char>
    decreases order.len(),
{
    if order.len() == 0 {
        Seq::empty()
    } else {
        sections_text(docs, order.drop_last()) + doc_section(docs[order.last().1], order.last().0)
    }
}

/// The YAML front matter of a project.
pub open spec fn frontmatter(p: Project) -> Seq<char> {
    let meta = match p.metadata {
        Some(m) => "metadata: "@ + m.json@ + "\n"@,
        None => Seq::empty(),
    };
    "---\n"@ + "title: "@ + seq!['"'] + yaml_escaped(p.title@) + seq!['"'] + "\n"@ + "templateId: "@
        + seq!['"'] + yaml_escaped(p.template_id@) + seq!['"'] + "\n"@ + "createdAt: "@
        + signed_decimal(p.created_at as int) + "\n"@ + "updatedAt: "@ + signed_decimal(
        p.updated_at as int,
    ) + "\n"@ + meta + "---\n\n"@
}

/// The whole Markdown text of a project.
pub open spec fn markdown_text(p: Project, docs: Seq<DocNode>) -> Seq<char> {
    frontmatter(p) + "# "@ + p.title@ + "\n\n"@ + sections_text(docs, preorder(docs))
}

/// Render a project as Markdown (UTF-8).
pub fn render(project: &Project, documents: &[DocNode], config: &ExportConfig) -> (r: AppResult<Vec<u8>>)
    requires
        documents@.len() < usize::MAX,
    ensures
        r matches Ok(b) && b@ == utf8_encode(markdown_text(*project, documents@)),
{
    let mut out = String::from_str("---\n");
    out.append("title: ");
    let t = yaml_quote(project.title.as_str());
    out.append(t.as_str());
    out.append("\n");
    out.append("templateId: ");
    let ti = yaml_quote(project.template_id.as_str());
    out.append(ti.as_str());
    out.append("\n");
    out.append("createdAt: ");
    push_signed_decimal(&mut out, project.created_at);
    out.append("\n");
    out.append("updatedAt: ");
    push_signed_decimal(&mut out, project.updated_at);
    out.append("\n");
    match &project.metadata {
        Some(m) => {
            out.append("metadata: ");
            out.append(m.json.as_str());
            out.append("\n");
        },
        None => {},
    }
    out.append("---\n\n");
    proof {
        assert(out@ =~= frontmatter(*project));
    }
    out.append("# ");
    out.append(project.title.as_str());
    out.append("\n\n");
    let ghost head = out@;
    let ordered = flatten_in_order(documents);
    let ghost order = preorder(documents@);
    let mut i: usize = 0;
    while i < ordered.len()
        invariant
            i <= ordered@.len(),
            ordered@.len() == order.len(),
            order == preorder(documents@),
            forall|k: int|
                #![trigger ordered@[k]]
                0 <= k < ordered@.len() ==> ordered@[k].0 as int == order[k].0 && 0 <= order[k].1
                    < documents@.len() && *ordered@[k].1 == documents@[order[k].1],
            out@ == head + sections_text(documents@, order.take(i as int)),
        decreases ordered@.len() - i,
    {
        let (depth, doc) = ordered[i];
        let ghost before = out@;
        let level: usize = if depth < 4 {
            depth + 2
        } else {
            6
        };
        let mut h: usize = 0;
        while h < level
            invariant
                h <= level,
                out@ == before + Seq::new(h as nat, |j: int| '#'),
            decreases level - h,
        {
            push_char(&mut out, '#');
            assert(out@ =~= before + Seq::new((h + 1) as nat, |j: int| '#'));
            h += 1;
        }
        push_char(&mut out, ' ');
        out.append(doc.title.as_str());
        out.append("\n\n");
        match &doc.content {
            Some(html) => {
                if trim_str(html.as_str()).len() > 0 {
                    let md = html_to_markdown(html.as_str());
                    let tm = trim_str(md.as_str());
                    let ts = string_of(&tm);
                    out.append(ts.as_str());
                    out.append("\n\n");
                }
            },
            None => {},
        }
        proof {
            assert(ordered@[i as int].0 as int == order[i as int].0);
            assert(heading_level(depth as int) == level);
            assert(out@ =~= before + doc_section(documents@[order[i as int].1], order[i as int].0));
            assert(order.take(i + 1).drop_last() =~= order.take(i as int));
            assert(order.take(i + 1).last() == order[i as int]);
        }
        i += 1;
    }
    assert(order.take(ordered@.len() as int) =~= order);
    Ok(utf8_bytes(out.as_str()))
}

} // verus!
