//! DOCX export: the page setup from the export options, an optional title
//! page and table of contents, each document as a heading followed by its
//! HTML content converted to paragraphs, scene separators between
//! top-level documents and an optional Codex appendix, packed by
//! `docx-rs`. Images are not embedded.
use vstd::prelude::*;
use vstd::string::*;

use docx_rs::{Docx, Paragraph, Run};

use crate::domain::{CodexEntry, DocNode, Project};
use crate::error::{AppError, AppResult};
use crate::exporter::config::{separator_text, ExportConfig, PageSize};
use crate::exporter::docx_helpers::{
    append_codex, append_paras, codex_paras, docx_add_paragraph, docx_add_toc, docx_body, docx_default_fonts,
    docx_default_size, docx_new, pack, packed, docx_page_margin, docx_page_size, docx_setup, fragment_paras,
    html_fragment, page_break_para, page_break_run, para_state, paragraph_of, paras_view, render_html_blocks,
    run_add_text, run_bold, run_font_east_asia, run_new, run_size, run_state, runs_view, text_run, text_run_exec,
    without_newlines, BlockView, ParaView, RunView, TocSettings, TocView,
};
use crate::exporter::markdown::heading_level;
use crate::exporter::media_bundle::MediaBundle;
use crate::exporter::pdf::{display_title, roots_before, trimmed_nonempty};
use crate::exporter::util::{flatten_in_order, preorder};
use crate::importer::ascii_lower_chars;
use crate::segments::digit;
use crate::text::{ascii_lower_str, char_from_ascii, chars_eq, chars_of, push_char, string_of, trim, trim_str};

verus! {

/// Millimetres in twips: `mm × 1440 / 25.4` rounded to the nearest
/// integer (`mm × 7200 / 127` is never halfway, 127 being odd), capped at
/// `i32::MAX`.
pub open spec fn twips(mm: nat) -> int {
    let v: int = (14400 * mm + 127) as int / 254;
    if v > i32::MAX {
        i32::MAX as int
    } else {
        v
    }
}

/// Millimetres to twips (1 inch = 25.4 mm = 1440 twips).
pub fn mm_to_twips(mm: u32) -> (r: i32)
    ensures
        r == twips(mm as nat),
{
    let v: u64 = (14400 * (mm as u64) + 127) / 254;
    if v > 2147483647 {
        2147483647
    } else {
        v as i32
    }
}

/// Page size in twips: A4, Letter, Legal, or the custom size converted.
pub open spec fn page_dims(s: PageSize) -> (u32, u32) {
    match s {
        PageSize::A4 => (11906, 16838),
        PageSize::Letter => (12240, 15840),
        PageSize::Legal => (12240, 20160),
        PageSize::Custom { width_mm, height_mm } => (twips(width_mm as nat) as u32, twips(height_mm as nat) as u32),
    }
}

/// `page_dims` computed.
fn page_dimensions_twips(size: &PageSize) -> (r: (u32, u32))
    ensures
        r == page_dims(*size),
{
    match size {
        PageSize::A4 => (11906, 16838),
        PageSize::Letter => (12240, 15840),
        PageSize::Legal => (12240, 20160),
        PageSize::Custom { width_mm, height_mm } => {
            let w = mm_to_twips(*width_mm);
            let h = mm_to_twips(*height_mm);
            (w as u32, h as u32)
        },
    }
}

/// The Word font for a family hint: `monospace`, `serif`, `sans` or
/// `sans-serif` (any ASCII case) map to Courier New, Times New Roman and
/// Arial; another name is used as given (trimmed); blank means none.
pub open spec fn resolved_font(family: Option<String>) -> Option<Seq<char>> {
    match family {
        None => None,
        Some(f) => {
            let raw = trim(f@);
            if raw.len() == 0 {
                None
            } else {
                let low = ascii_lower_str(raw);
                Some(
                    if low == "monospace"@ {
                        "Courier New"@
                    } else if low == "serif"@ {
                        "Times New Roman"@
                    } else if low == "sans"@ || low == "sans-serif"@ {
                        "Arial"@
                    } else {
                        raw
                    },
                )
            }
        },
    }
}

/// `resolved_font` computed.
fn resolve_docx_font(family: &Option<String>) -> (r: Option<String>)
    ensures
        match r {
            Some(s) => resolved_font(*family) == Some(s@),
            None => resolved_font(*family) is None,
        },
{
    match family {
        None => None,
        Some(f) => {
            let raw = trim_str(f.as_str());
            if raw.len() == 0 {
                return None;
            }
            let low = ascii_lower_chars(&raw);
            let name = if chars_eq(&low, &chars_of("monospace")) {
                String::from_str("Courier New")
            } else if chars_eq(&low, &chars_of("serif")) {
                String::from_str("Times New Roman")
            } else if chars_eq(&low, &chars_of("sans")) || chars_eq(&low, &chars_of("sans-serif")) {
                String::from_str("Arial")
            } else {
                string_of(&raw)
            };
            Some(name)
        },
    }
}

/// The page setup the options ask for: page size and margins in twips,
/// and when a font is named, that font at 12 pt as the default for ASCII,
/// high ANSI and East Asian text alike.
pub open spec fn wanted_setup(c: ExportConfig) -> ((u32, u32), (i32, i32, i32, i32), Option<(Seq<char>, Seq<char>, Seq<char>)>, Option<nat>) {
    (
        page_dims(c.page_size),
        (
            twips(c.margins.top_mm as nat) as i32,
            twips(c.margins.bottom_mm as nat) as i32,
            twips(c.margins.left_mm as nat) as i32,
            twips(c.margins.right_mm as nat) as i32,
        ),
        match resolved_font(c.font_family) {
            Some(f) => Some((f, f, f)),
            None => None,
        },
        if resolved_font(c.font_family) is Some {
            Some(24nat)
        } else {
            None
        },
    )
}

/// A run of text at a size in half-points.
pub open spec fn sized_run(t: Seq<char>, size: nat, bold: bool) -> RunView {
    (seq![(false, without_newlines(t))], bold, false, None, false, Some(size), None)
}

/// The title page: the title as a centred first-level heading (bold,
/// 36 pt), the author centred at 16 pt when given, then a page break.
pub open spec fn title_paras(t: Seq<char>, author: Option<Seq<char>>) -> Seq<ParaView> {
    let by = match author {
        Some(a) => seq![(None::<Seq<char>>, true, seq![sized_run(a, 32, false)])],
        None => Seq::<ParaView>::empty(),
    };
    seq![(Some("Heading1"@), true, seq![sized_run(t, 72, true)])] + by + seq![
        (None::<Seq<char>>, false, seq![page_break_run()]),
    ]
}

/// The heading style of a document at `depth`.
pub open spec fn heading_style_at(depth: int) -> Seq<char> {
    "Heading"@ + seq![digit(heading_level(depth))]
}

/// One document: its title as a bold heading (East Asian text in Lora),
/// then its content's paragraphs when the content is not blank.
pub open spec fn doc_paras(d: DocNode, depth: int) -> Seq<ParaView> {
    let content = match d.content {
        Some(h) => if trim(h@).len() > 0 {
            fragment_paras(html_fragment(h@))
        } else {
            Seq::<ParaView>::empty()
        },
        None => Seq::<ParaView>::empty(),
    };
    seq![
        (Some(heading_style_at(depth)), false, seq![(seq![(false, without_newlines(d.title@))], true, false, None::<Seq<char>>, false, None::<nat>, Some((None::<Seq<char>>, Some("Lora"@))))]),
    ] + content
}

/// The documents listed as `(depth, index)`, with a centred separator
/// paragraph between consecutive top-level documents when the separator
/// is not empty.
pub open spec fn chapter_paras(docs: Seq<DocNode>, order: Seq<(int, int)>, sep: Seq<char>) -> Seq<ParaView>
    decreases order.len(),
{
    if order.len() == 0 {
        Seq::empty()
    } else {
        let last = order.last();
        let gap = if last.0 == 0 && roots_before(order.drop_last()) && sep.len() > 0 {
            seq![(None::<Seq<char>>, true, seq![text_run(sep)])]
        } else {
            Seq::<ParaView>::empty()
        };
        chapter_paras(docs, order.drop_last(), sep) + gap + doc_paras(docs[last.1], last.0)
    }
}

/// The table of contents of the export: the levels of `Heading1` to
/// `Heading6`, each style listed with its level, entries as links, marked
/// so Word refreshes it when the document opens.
pub open spec fn heading_toc_view() -> TocView {
    (
        1,
        6,
        seq![
            ("Heading1"@, 1nat),
            ("Heading2"@, 2nat),
            ("Heading3"@, 3nat),
            ("Heading4"@, 4nat),
            ("Heading5"@, 5nat),
            ("Heading6"@, 6nat),
        ],
        true,
        true,
    )
}

/// The settings of the export's table of contents.
pub fn heading_toc() -> (t: TocSettings)
    ensures
        t@ == heading_toc_view(),
{
    let mut styles: Vec<(String, usize)> = Vec::new();
    styles.push((String::from_str("Heading1"), 1));
    styles.push((String::from_str("Heading2"), 2));
    styles.push((String::from_str("Heading3"), 3));
    styles.push((String::from_str("Heading4"), 4));
    styles.push((String::from_str("Heading5"), 5));
    styles.push((String::from_str("Heading6"), 6));
    let t = TocSettings { first_level: 1, last_level: 6, styles, hyperlink: true, dirty: true };
    assert(t@.2 =~= heading_toc_view().2);
    t
}

/// Paragraphs as body content.
pub open spec fn as_blocks(ps: Seq<ParaView>) -> Seq<BlockView> {
    ps.map_values(|p: ParaView| (None::<TocView>, p))
}

/// The body of the exported document.
pub open spec fn docx_content(p: Project, docs: Seq<DocNode>, codex: Seq<CodexEntry>, c: ExportConfig) -> Seq<BlockView> {
    as_blocks(
        if c.include_title_page {
            title_paras(display_title(p, c), trimmed_nonempty(c.author))
        } else {
            Seq::empty()
        },
    ) + (if c.include_toc {
        seq![
            (Some(heading_toc_view()), (None::<Seq<char>>, false, Seq::<RunView>::empty())),
            (None::<TocView>, (None::<Seq<char>>, false, seq![page_break_run()])),
        ]
    } else {
        Seq::<BlockView>::empty()
    }) + as_blocks(chapter_paras(docs, preorder(docs), separator_text(c.scene_separator))) + as_blocks(
        if c.include_codex && codex.len() > 0 {
            codex_paras(codex)
        } else {
            Seq::empty()
        },
    )
}

/// Add paragraphs to the body.
fn add_paras(d: Docx, ps: Vec<Paragraph>) -> (o: Docx)
    ensures
        docx_body(o) == docx_body(d) + as_blocks(paras_view(ps@)),
        docx_setup(o) == docx_setup(d),
{
    let mut d = d;
    let mut ps = ps;
    let ghost all = paras_view(ps@);
    let ghost start = docx_body(d);
    let ghost setup = docx_setup(d);
    assert(as_blocks(all.take(0)) =~= Seq::<BlockView>::empty());
    let ghost mut done: nat = 0;
    while ps.len() > 0
        invariant
            done + paras_view(ps@).len() == all.len(),
            paras_view(ps@) == all.skip(done as int),
            docx_body(d) == start + as_blocks(all.take(done as int)),
            docx_setup(d) == setup,
        decreases ps@.len(),
    {
        let ghost before = paras_view(ps@);
        let p = ps.remove(0);
        assert(paras_view(ps@) =~= before.drop_first());
        assert(before[0] == para_state(p));
        assert(all[done as int] == para_state(p));
        d = docx_add_paragraph(d, p);
        proof {
            assert(as_blocks(all.take(done as int + 1)) =~= as_blocks(all.take(done as int)).push((None::<TocView>, all[done as int])));
            assert(all.skip(done as int + 1) =~= all.skip(done as int).drop_first());
            done = done + 1;
        }
    }
    assert(all.take(done as int) =~= all);
    d
}

/// The paragraphs of the title page.
fn title_page(display_title: &str, author: &Option<String>) -> (r: Vec<Paragraph>)
    ensures
        paras_view(r@) == title_paras(display_title@, crate::exporter::pdf::opt_view(*author)),
{
    let mut out: Vec<Paragraph> = Vec::new();
    let mut runs: Vec<Run> = Vec::new();
    let ghost e = paras_view(out@);
    assert(e =~= Seq::<ParaView>::empty());
    assert(runs_view(runs@) =~= Seq::<RunView>::empty());
    let t = run_bold(run_size(run_add_text(run_new(), display_title), 72));
    runs.push(t);
    assert(runs_view(runs@) =~= seq![run_state(runs@[0])]);
    out.push(paragraph_of(Some("Heading1"), true, runs));
    match author {
        Some(a) => {
            let mut ar: Vec<Run> = Vec::new();
            ar.push(run_size(run_add_text(run_new(), a.as_str()), 32));
            assert(runs_view(ar@) =~= seq![run_state(ar@[0])]);
            out.push(paragraph_of(None, true, ar));
        },
        None => {},
    }
    out.push(page_break_para());
    assert(paras_view(out@) =~= title_paras(display_title@, crate::exporter::pdf::opt_view(*author)));
    out
}

/// The paragraphs of one document.
fn add_document(doc: &DocNode, depth: usize) -> (r: Vec<Paragraph>)
    ensures
        paras_view(r@) == doc_paras(*doc, depth as int),
{
    let level: u32 = if depth < 4 {
        depth as u32 + 2
    } else {
        6
    };
    let mut style = String::from_str("Heading");
    push_char(&mut style, char_from_ascii(48 + level));
    assert(style@ == heading_style_at(depth as int));
    let r = run_font_east_asia(run_bold(run_add_text(run_new(), doc.title.as_str())), "Lora");
    let mut runs: Vec<Run> = Vec::new();
    runs.push(r);
    assert(runs_view(runs@) =~= seq![run_state(runs@[0])]);
    let mut out: Vec<Paragraph> = Vec::new();
    out.push(paragraph_of(Some(style.as_str()), false, runs));
    assert(paras_view(out@) =~= seq![para_state(out@[0])]);
    match &doc.content {
        Some(html) => {
            if trim_str(html.as_str()).len() > 0 {
                let more = render_html_blocks(html.as_str());
                append_paras(&mut out, more);
            }
        },
        None => {},
    }
    assert(paras_view(out@) =~= doc_paras(*doc, depth as int));
    out
}

/// Build the document for a project.
pub fn build_docx(project: &Project, documents: &[DocNode], codex: &[CodexEntry], config: &ExportConfig) -> (d: Docx)
    requires
        documents@.len() < usize::MAX,
    ensures
        docx_body(d) == docx_content(*project, documents@, codex@, *config),
        docx_setup(d) == wanted_setup(*config),
{
    let mut d = docx_new();
    let (w, h) = page_dimensions_twips(&config.page_size);
    d = docx_page_size(d, w, h);
    d = docx_page_margin(
        d,
        mm_to_twips(config.margins.top_mm),
        mm_to_twips(config.margins.bottom_mm),
        mm_to_twips(config.margins.left_mm),
        mm_to_twips(config.margins.right_mm),
    );
    match resolve_docx_font(&config.font_family) {
        Some(font) => {
            d = docx_default_fonts(d, font.as_str(), font.as_str(), font.as_str());
            d = docx_default_size(d, 24);
        },
        None => {},
    }
    let ghost setup = docx_setup(d);
    assert(setup == wanted_setup(*config));
    assert(docx_body(d) =~= Seq::<BlockView>::empty());
    let ghost base = docx_body(d);
    if config.include_title_page {
        let title = match crate::exporter::pdf::trimmed_nonempty_exec(&config.title_override) {
            Some(t) => t,
            None => project.title.clone(),
        };
        let author = crate::exporter::pdf::trimmed_nonempty_exec(&config.author);
        assert(crate::exporter::pdf::opt_view(author) == trimmed_nonempty(config.author));
        let ps = title_page(title.as_str(), &author);
        d = add_paras(d, ps);
    }
    let ghost after_title = docx_body(d);
    if config.include_toc {
        let toc = heading_toc();
        d = docx_add_toc(d, &toc);
        let mut ps: Vec<Paragraph> = Vec::new();
        ps.push(page_break_para());
        assert(paras_view(ps@) =~= seq![para_state(ps@[0])]);
        d = add_paras(d, ps);
        assert(docx_body(d) =~= after_title + seq![
            (Some(heading_toc_view()), (None::<Seq<char>>, false, Seq::<RunView>::empty())),
            (None::<TocView>, (None::<Seq<char>>, false, seq![page_break_run()])),
        ]);
    }
    let ghost head = docx_body(d);
    let ordered = flatten_in_order(documents);
    let ghost order = preorder(documents@);
    let sep = config.scene_separator.as_text();
    let has_sep = sep.unicode_len() > 0;
    let mut seen = false;
    let mut i: usize = 0;
    while i < ordered.len()
        invariant
            i <= ordered@.len(),
            ordered@.len() == order.len(),
            order == preorder(documents@),
            has_sep == (sep@.len() > 0),
            forall|k: int|
                #![trigger ordered@[k]]
                0 <= k < ordered@.len() ==> ordered@[k].0 as int == order[k].0 && 0 <= order[k].1
                    < documents@.len() && *ordered@[k].1 == documents@[order[k].1],
            seen == roots_before(order.take(i as int)),
            docx_body(d) == head + as_blocks(chapter_paras(documents@, order.take(i as int), sep@)),
            docx_setup(d) == setup,
        decreases ordered@.len() - i,
    {
        let (depth, doc) = ordered[i];
        proof {
            assert(ordered@[i as int].0 as int == order[i as int].0);
            assert(order.take(i + 1).drop_last() =~= order.take(i as int));
            assert(order.take(i + 1).last() == order[i as int]);
            assert(documents@[order[i as int].1] == *doc);
        }
        let ghost before = chapter_paras(documents@, order.take(i as int), sep@);
        let mut ps: Vec<Paragraph> = Vec::new();
        assert(paras_view(ps@) =~= Seq::<ParaView>::empty());
        if depth == 0 {
            if seen && has_sep {
                let mut runs: Vec<Run> = Vec::new();
                runs.push(text_run_exec(sep));
                assert(runs_view(runs@) =~= seq![run_state(runs@[0])]);
                ps.push(paragraph_of(None, true, runs));
                assert(paras_view(ps@) =~= seq![para_state(ps@[0])]);
            }
            seen = true;
        }
        let more = add_document(doc, depth);
        append_paras(&mut ps, more);
        proof {
            assert(before + paras_view(ps@) =~= chapter_paras(documents@, order.take(i + 1), sep@));
            assert(as_blocks(before + paras_view(ps@)) =~= as_blocks(before) + as_blocks(paras_view(ps@)));
        }
        d = add_paras(d, ps);
        i += 1;
    }
    assert(order.take(ordered@.len() as int) =~= order);
    let ghost after_docs = docx_body(d);
    if config.include_codex && codex.len() > 0 {
        let ps = append_codex(codex);
        d = add_paras(d, ps);
    }
    proof {
        assert(as_blocks(Seq::<ParaView>::empty()) =~= Seq::<BlockView>::empty());
        assert(docx_body(d) =~= docx_content(*project, documents@, codex@, *config));
    }
    d
}

/// What an export gives for the outcome of packing: the bytes, or an
/// `Unexpected` error `docx build failed: <cause>`.
pub open spec fn pack_result(p: Result<Vec<u8>, String>, r: AppResult<Vec<u8>>) -> bool {
    match p {
        Ok(b) => r == Ok::<Vec<u8>, AppError>(b),
        Err(m) => r matches Err(AppError::Unexpected(t)) && t@ == "docx build failed: "@ + m@,
    }
}

/// `r` is what exporting gives: the outcome (see `pack_result`) of packing
/// a document whose body is `docx_content` and whose setup is
/// `wanted_setup`.
pub open spec fn docx_export(
    p: Project,
    docs: Seq<DocNode>,
    codex: Seq<CodexEntry>,
    c: ExportConfig,
    r: AppResult<Vec<u8>>,
) -> bool {
    exists|d: Docx, out: Result<Vec<u8>, String>|
        #![trigger packed(d, out)]
        docx_body(d) == docx_content(p, docs, codex, c) && docx_setup(d) == wanted_setup(c) && packed(
            d,
            out,
        ) && pack_result(out, r)
}

/// The export's outcome for the outcome of packing (see `pack_result`).
pub fn export_from_pack(p: Result<Vec<u8>, String>) -> (r: AppResult<Vec<u8>>)
    ensures
        pack_result(p, r),
{
    match p {
        Ok(bytes) => Ok(bytes),
        Err(m) => {
            let mut msg = String::from_str("docx build failed: ");
            msg.append(m.as_str());
            Err(AppError::Unexpected(msg))
        },
    }
}

/// Export the project as a `.docx`: the document `build_docx` makes of
/// the project, packed, and the packing's outcome taken as
/// `export_from_pack` says. The media bundle is accepted for a uniform
/// renderer signature; images are not embedded.
pub fn render(
    project: &Project,
    documents: &[DocNode],
    codex: &[CodexEntry],
    media: &MediaBundle,
    config: &ExportConfig,
) -> (r: AppResult<Vec<u8>>)
    requires
        documents@.len() < usize::MAX,
    ensures
        docx_export(*project, documents@, codex@, *config, r),
{
    let d = build_docx(project, documents, codex, config);
    let ghost dv = d;
    let p = pack(d);
    assert(packed(dv, p));
    export_from_pack(p)
}

} // verus!
