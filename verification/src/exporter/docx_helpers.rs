//! DOCX building blocks: the `docx-rs` builder calls the exporter makes,
//! the HTML-to-paragraph pipeline (a TipTap fragment parsed with
//! `scraper`) and the Codex appendix.
use vstd::prelude::*;
use vstd::string::*;

use docx_rs::{AlignmentType, BreakType, Docx, PageMargin, Paragraph, Run, RunFonts, StyleWithLevel, TableOfContents};

use crate::domain::{CodexEntry, CodexKind};
use crate::exporter::pdf::{kind_upto, name_key, name_keys, section_name, sort_by_name, sorted_kind};
use crate::segments::{decimal, digit, push_decimal};
use crate::text::{chars_of, join, join_strings, lex_le, lowercase, replace_all, string_of, string_views, to_lowercase, trim, trim_str};

verus! {

/// `docx_rs::Run`.
#[verifier::external_type_specification]
#[verifier::external_body]
pub struct ExRun(docx_rs::Run);

/// `docx_rs::Paragraph`.
#[verifier::external_type_specification]
#[verifier::external_body]
pub struct ExParagraph(docx_rs::Paragraph);

/// `docx_rs::Docx`.
#[verifier::external_type_specification]
#[verifier::external_body]
pub struct ExDocx(docx_rs::Docx);

/// A run as the exporter shapes it: its children in order (`(true, break
/// type)` or `(false, text)`), bold, italic, underline type, strike, size
/// in half-points, and fonts `(ascii, east asia)` when set.
pub type RunView = (Seq<(bool, Seq<char>)>, bool, bool, Option<Seq<char>>, bool, Option<nat>, Option<(Option<Seq<char>>, Option<Seq<char>>)>);

/// A paragraph: its style id, whether centred, its runs.
pub type ParaView = (Option<Seq<char>>, bool, Seq<RunView>);

/// A table of contents: the heading levels it collects (first, last), the
/// paragraph styles it lists with their levels, whether its entries are
/// links, whether it is marked for refresh when the document opens.
pub type TocView = (nat, nat, Seq<(Seq<char>, nat)>, bool, bool);

/// The body content of a document: a table of contents (`(Some(toc), _)`,
/// with an empty paragraph part) or a paragraph (`(None, p)`).
pub type BlockView = (Option<TocView>, ParaView);

/// The settings of a table of contents, as plain values.
#[derive(Debug, Clone)]
pub struct TocSettings {
    pub first_level: usize,
    pub last_level: usize,
    /// Paragraph style names with the level each stands for.
    pub styles: Vec<(String, usize)>,
    pub hyperlink: bool,
    pub dirty: bool,
}

impl View for TocSettings {
    type V = TocView;

    open spec fn view(&self) -> TocView {
        (
            self.first_level as nat,
            self.last_level as nat,
            self.styles@.map_values(|e: (String, usize)| (e.0@, e.1 as nat)),
            self.hyperlink,
            self.dirty,
        )
    }
}

/// The state of a run.
pub uninterp spec fn run_state(r: Run) -> RunView;

/// The state of a paragraph.
pub uninterp spec fn para_state(p: Paragraph) -> ParaView;

/// The body content of a document, in order.
pub uninterp spec fn docx_body(d: Docx) -> Seq<BlockView>;

/// The page setup of a document: page size `(width, height)` and margins
/// `(top, bottom, left, right)` in twips, the default fonts `(ascii, high
/// ANSI, east asia)` and the default size in half-points when set.
pub uninterp spec fn docx_setup(d: Docx) -> ((u32, u32), (i32, i32, i32, i32), Option<(Seq<char>, Seq<char>, Seq<char>)>, Option<nat>);

/// The text `docx-rs` stores for `add_text`: the text without its line
/// feeds.
pub open spec fn without_newlines(t: Seq<char>) -> Seq<char> {
    replace_all(t, "\n"@, ""@)
}

/// `Run::new`: no children, no property set.
#[verifier::external_body]
pub(crate) fn run_new() -> (r: Run)
    ensures
        run_state(r) == (Seq::<(bool, Seq<char>)>::empty(), false, false, None::<Seq<char>>, false, None::<nat>, None::<(Option<Seq<char>>, Option<Seq<char>>)>),
{
    Run::new()
}

/// `Run::add_text`: appends the text, line feeds removed.
#[verifier::external_body]
pub(crate) fn run_add_text(r: Run, t: &str) -> (o: Run)
    ensures
        run_state(o) == (run_state(r).0.push((false, without_newlines(t@))), run_state(r).1, run_state(r).2, run_state(r).3, run_state(r).4, run_state(r).5, run_state(r).6),
{
    r.add_text(t)
}

/// `Run::add_break` with a page break (`page`) or a line break
/// (`textWrapping`).
#[verifier::external_body]
pub(crate) fn run_add_break(r: Run, page: bool) -> (o: Run)
    ensures
        run_state(o) == (run_state(r).0.push((true, if page { "page"@ } else { "textWrapping"@ })), run_state(r).1, run_state(r).2, run_state(r).3, run_state(r).4, run_state(r).5, run_state(r).6),
{
    r.add_break(if page { BreakType::Page } else { BreakType::TextWrapping })
}

/// `Run::bold`.
#[verifier::external_body]
pub(crate) fn run_bold(r: Run) -> (o: Run)
    ensures
        run_state(o) == (run_state(r).0, true, run_state(r).2, run_state(r).3, run_state(r).4, run_state(r).5, run_state(r).6),
{
    r.bold()
}

/// `Run::italic`.
#[verifier::external_body]
pub(crate) fn run_italic(r: Run) -> (o: Run)
    ensures
        run_state(o) == (run_state(r).0, run_state(r).1, true, run_state(r).3, run_state(r).4, run_state(r).5, run_state(r).6),
{
    r.italic()
}

/// `Run::underline` with a line type.
#[verifier::external_body]
pub(crate) fn run_underline(r: Run, kind: &str) -> (o: Run)
    ensures
        run_state(o) == (run_state(r).0, run_state(r).1, run_state(r).2, Some(kind@), run_state(r).4, run_state(r).5, run_state(r).6),
{
    r.underline(kind)
}

/// `Run::strike`.
#[verifier::external_body]
pub(crate) fn run_strike(r: Run) -> (o: Run)
    ensures
        run_state(o) == (run_state(r).0, run_state(r).1, run_state(r).2, run_state(r).3, true, run_state(r).5, run_state(r).6),
{
    r.strike()
}

/// `Run::size` in half-points.
#[verifier::external_body]
pub(crate) fn run_size(r: Run, n: usize) -> (o: Run)
    ensures
        run_state(o) == (run_state(r).0, run_state(r).1, run_state(r).2, run_state(r).3, run_state(r).4, Some(n as nat), run_state(r).6),
{
    r.size(n)
}

/// `Run::fonts` with `RunFonts::new().ascii(font)`.
#[verifier::external_body]
pub(crate) fn run_font_ascii(r: Run, font: &str) -> (o: Run)
    ensures
        run_state(o) == (run_state(r).0, run_state(r).1, run_state(r).2, run_state(r).3, run_state(r).4, run_state(r).5, Some((Some(font@), None::<Seq<char>>))),
{
    r.fonts(RunFonts::new().ascii(font))
}

/// `Run::fonts` with `RunFonts::new().east_asia(font)`.
#[verifier::external_body]
pub(crate) fn run_font_east_asia(r: Run, font: &str) -> (o: Run)
    ensures
        run_state(o) == (run_state(r).0, run_state(r).1, run_state(r).2, run_state(r).3, run_state(r).4, run_state(r).5, Some((None::<Seq<char>>, Some(font@)))),
{
    r.fonts(RunFonts::new().east_asia(font))
}

/// `Paragraph::new`: no style, left aligned, no runs.
#[verifier::external_body]
pub(crate) fn para_new() -> (p: Paragraph)
    ensures
        para_state(p) == (None::<Seq<char>>, false, Seq::<RunView>::empty()),
{
    Paragraph::new()
}

/// `Paragraph::style`.
#[verifier::external_body]
pub(crate) fn para_style(p: Paragraph, style: &str) -> (o: Paragraph)
    ensures
        para_state(o) == (Some(style@), para_state(p).1, para_state(p).2),
{
    p.style(style)
}

/// `Paragraph::align(AlignmentType::Center)`.
#[verifier::external_body]
pub(crate) fn para_center(p: Paragraph) -> (o: Paragraph)
    ensures
        para_state(o) == (para_state(p).0, true, para_state(p).2),
{
    p.align(AlignmentType::Center)
}

/// `Paragraph::add_run`: appends the run.
#[verifier::external_body]
pub(crate) fn para_add_run(p: Paragraph, r: Run) -> (o: Paragraph)
    ensures
        para_state(o) == (para_state(p).0, para_state(p).1, para_state(p).2.push(run_state(r))),
{
    p.add_run(r)
}

/// `Docx::new`: an empty body, an A4 page (11906 × 16838 twips), the
/// crate's default margins, no default font or size.
#[verifier::external_body]
pub(crate) fn docx_new() -> (d: Docx)
    ensures
        docx_body(d) == Seq::<BlockView>::empty(),
        docx_setup(d) == ((11906u32, 16838u32), (1985i32, 1701i32, 1701i32, 1701i32), None::<(Seq<char>, Seq<char>, Seq<char>)>, None::<nat>),
{
    Docx::new()
}

/// `Docx::add_paragraph`: appends the paragraph.
#[verifier::external_body]
pub(crate) fn docx_add_paragraph(d: Docx, p: Paragraph) -> (o: Docx)
    ensures
        docx_body(o) == docx_body(d).push((None::<TocView>, para_state(p))),
        docx_setup(o) == docx_setup(d),
{
    d.add_paragraph(p)
}

/// `Docx::add_table_of_contents` of a `TableOfContents` with the heading
/// range, the styles with their levels, the hyperlink switch and the
/// dirty flag of `toc`: appends the table.
#[verifier::external_body]
pub(crate) fn docx_add_toc(d: Docx, toc: &TocSettings) -> (o: Docx)
    ensures
        docx_body(o) == docx_body(d).push((Some(toc@), (None::<Seq<char>>, false, Seq::<RunView>::empty()))),
        docx_setup(o) == docx_setup(d),
{
    let mut t = TableOfContents::new().heading_styles_range(toc.first_level, toc.last_level);
    t.instr.styles_with_levels = toc.styles.iter().map(|e| StyleWithLevel::new(e.0.as_str(), e.1)).collect();
    t.instr.hyperlink = toc.hyperlink;
    t.dirty = toc.dirty;
    d.add_table_of_contents(t)
}

/// `Docx::page_size` in twips.
#[verifier::external_body]
pub(crate) fn docx_page_size(d: Docx, w: u32, h: u32) -> (o: Docx)
    ensures
        docx_body(o) == docx_body(d),
        docx_setup(o) == ((w, h), docx_setup(d).1, docx_setup(d).2, docx_setup(d).3),
{
    d.page_size(w, h)
}

/// `Docx::page_margin` of `PageMargin::new()` with the four margins in
/// twips.
#[verifier::external_body]
pub(crate) fn docx_page_margin(d: Docx, top: i32, bottom: i32, left: i32, right: i32) -> (o: Docx)
    ensures
        docx_body(o) == docx_body(d),
        docx_setup(o) == (docx_setup(d).0, (top, bottom, left, right), docx_setup(d).2, docx_setup(d).3),
{
    d.page_margin(PageMargin::new().top(top).bottom(bottom).left(left).right(right))
}

/// `Docx::default_fonts` of `RunFonts::new()` with the given fonts for
/// ASCII, high ANSI and East Asian text.
#[verifier::external_body]
pub(crate) fn docx_default_fonts(d: Docx, ascii: &str, hi_ansi: &str, east_asia: &str) -> (o: Docx)
    ensures
        docx_body(o) == docx_body(d),
        docx_setup(o) == (docx_setup(d).0, docx_setup(d).1, Some((ascii@, hi_ansi@, east_asia@)), docx_setup(d).3),
{
    d.default_fonts(RunFonts::new().ascii(ascii).hi_ansi(hi_ansi).east_asia(east_asia))
}

/// `Docx::default_size` in half-points.
#[verifier::external_body]
pub(crate) fn docx_default_size(d: Docx, n: usize) -> (o: Docx)
    ensures
        docx_body(o) == docx_body(d),
        docx_setup(o) == (docx_setup(d).0, docx_setup(d).1, docx_setup(d).2, Some(n as nat)),
{
    d.default_size(n)
}

/// `Docx::pack` into a byte vector; a zip error as its `Display` text.
/// Nothing is promised of the outcome: the bytes hold paragraph and
/// bookmark ids drawn from process-wide counters, and the zip and XML
/// writers can fail on sizes and contents the model does not hold.
#[verifier::external_body]
fn docx_pack(d: Docx) -> (r: Result<Vec<u8>, String>) {
    let mut buf: Vec<u8> = Vec::new();
    match d.pack(std::io::Cursor::new(&mut buf)) {
        Ok(()) => Ok(buf),
        Err(e) => Err(e.to_string()),
    }
}

/// Whether `out` is what `Docx::pack` gave for `d` (see `docx_pack`).
pub closed spec fn packed(d: Docx, out: Result<Vec<u8>, String>) -> bool {
    call_ensures(docx_pack, (d,), out)
}

/// Pack a document.
pub(crate) fn pack(d: Docx) -> (r: Result<Vec<u8>, String>)
    ensures
        packed(d, r),
{
    docx_pack(d)
}

/// What a node of a parsed HTML fragment is.
#[derive(Debug, Clone, Copy)]
pub enum HtmlKind {
    Element,
    Text,
    Other,
}

/// A node of a parsed HTML fragment, in document order from the root
/// `<html>` element on: how many ancestors it has, its kind, its tag name
/// (elements) and its text (text nodes).
#[derive(Debug, Clone)]
pub struct HtmlNode {
    pub depth: usize,
    pub kind: HtmlKind,
    pub name: String,
    pub text: String,
}

/// A node as plain values: depth, kind (0 element, 1 text, 2 other),
/// name, text.
pub type HtmlView = (nat, nat, Seq<char>, Seq<char>);

/// The view of a node.
pub open spec fn html_view(n: HtmlNode) -> HtmlView {
    (n.depth as nat, match n.kind {
        HtmlKind::Element => 0nat,
        HtmlKind::Text => 1nat,
        HtmlKind::Other => 2nat,
    }, n.name@, n.text@)
}

/// The views of a node list.
pub open spec fn html_views(v: Seq<HtmlNode>) -> Seq<HtmlView> {
    v.map_values(|n: HtmlNode| html_view(n))
}

/// The nodes `scraper` builds for an HTML fragment (`root_element()` and
/// its descendants).
pub uninterp spec fn html_fragment(html: Seq<char>) -> Seq<(nat, nat, Seq<char>, Seq<char>)>;

/// `scraper::Html::parse_fragment`, each node of `root_element()
/// .descendants()` handed out as plain values (`ancestors().count()`, the
/// node kind, the element's `name()`, the text). The result is named by
/// `html_fragment`.
#[verifier::external_body]
fn parse_fragment(html: &str) -> (r: Vec<HtmlNode>)
    ensures
        html_views(r@) == html_fragment(html@),
{
    let parsed = scraper::Html::parse_fragment(html);
    parsed.root_element().descendants().map(|n| match n.value() {
        scraper::Node::Element(e) => HtmlNode { depth: n.ancestors().count(), kind: HtmlKind::Element, name: e.name().to_string(), text: String::new() },
        scraper::Node::Text(t) => HtmlNode { depth: n.ancestors().count(), kind: HtmlKind::Text, name: String::new(), text: t.text.to_string() },
        _ => HtmlNode { depth: n.ancestors().count(), kind: HtmlKind::Other, name: String::new(), text: String::new() },
    }).collect()
}

/// The children of node `i` found scanning from `j`.
pub open spec fn hchild_list(ns: Seq<HtmlView>, i: int, j: int) -> Seq<int>
    decreases ns.len() - j,
{
    if j < 0 || j >= ns.len() || ns[j].0 <= ns[i].0 {
        Seq::empty()
    } else if ns[j].0 == ns[i].0 + 1 {
        seq![j] + hchild_list(ns, i, j + 1)
    } else {
        hchild_list(ns, i, j + 1)
    }
}

/// The children of node `i`, in order.
pub open spec fn hchildren(ns: Seq<HtmlView>, i: int) -> Seq<int> {
    hchild_list(ns, i, i + 1)
}

/// The text of the text nodes below node `i`, scanning from `j`.
pub open spec fn subtree_text(ns: Seq<HtmlView>, i: int, j: int) -> Seq<char>
    decreases ns.len() - j,
{
    if j < 0 || j >= ns.len() || ns[j].0 <= ns[i].0 {
        Seq::empty()
    } else {
        (if ns[j].1 == 1 {
            ns[j].3
        } else {
            Seq::<char>::empty()
        }) + subtree_text(ns, i, j + 1)
    }
}

/// Inline marks: bold, italic, underline, strike, code.
pub type Marks = (bool, bool, bool, bool, bool);

/// The marks inside an inline element.
pub open spec fn merged(m: Marks, name: Seq<char>) -> Marks {
    if name == "strong"@ || name == "b"@ {
        (true, m.1, m.2, m.3, m.4)
    } else if name == "em"@ || name == "i"@ {
        (m.0, true, m.2, m.3, m.4)
    } else if name == "u"@ {
        (m.0, m.1, true, m.3, m.4)
    } else if name == "s"@ || name == "del"@ || name == "strike"@ {
        (m.0, m.1, m.2, true, m.4)
    } else if name == "code"@ {
        (m.0, m.1, m.2, m.3, true)
    } else {
        m
    }
}

/// A run of text with plain formatting.
pub open spec fn text_run(t: Seq<char>) -> RunView {
    (seq![(false, without_newlines(t))], false, false, None, false, None, None)
}

/// A run of text with the marks applied: bold, italic, single underline,
/// strike, and Consolas for code.
pub open spec fn marked_run(t: Seq<char>, m: Marks) -> RunView {
    (
        seq![(false, without_newlines(t))],
        m.0,
        m.1,
        if m.2 {
            Some("single"@)
        } else {
            None
        },
        m.3,
        None,
        if m.4 {
            Some((Some("Consolas"@), None::<Seq<char>>))
        } else {
            None
        },
    )
}

/// A line break run.
pub open spec fn line_break_run() -> RunView {
    (seq![(true, "textWrapping"@)], false, false, None, false, None, None)
}

/// A page break run.
pub open spec fn page_break_run() -> RunView {
    (seq![(true, "page"@)], false, false, None, false, None, None)
}

/// The runs of node `i` under the marks `m`: a non-empty text node gives a
/// run, `<br>` a line break, another element the runs of its children
/// with its marks added. `fuel` bounds the nesting.
pub open spec fn node_runs(ns: Seq<HtmlView>, i: int, m: Marks, fuel: nat) -> Seq<RunView>
    decreases fuel, 0int,
{
    if fuel == 0 || i < 0 || i >= ns.len() {
        Seq::empty()
    } else if ns[i].1 == 1 {
        if ns[i].3.len() > 0 {
            seq![marked_run(ns[i].3, m)]
        } else {
            Seq::empty()
        }
    } else if ns[i].1 == 0 {
        if ns[i].2 == "br"@ {
            seq![line_break_run()]
        } else {
            list_runs(ns, hchildren(ns, i), merged(m, ns[i].2), (fuel - 1) as nat)
        }
    } else {
        Seq::empty()
    }
}

/// The runs of the listed nodes, in order.
pub open spec fn list_runs(ns: Seq<HtmlView>, kids: Seq<int>, m: Marks, fuel: nat) -> Seq<RunView>
    decreases fuel, 1 + kids.len(),
{
    if kids.len() == 0 {
        Seq::empty()
    } else {
        node_runs(ns, kids[0], m, fuel) + list_runs(ns, kids.drop_first(), m, fuel)
    }
}

/// The inline runs of an element: those of its children, unmarked.
pub open spec fn element_runs(ns: Seq<HtmlView>, i: int, fuel: nat) -> Seq<RunView> {
    list_runs(ns, hchildren(ns, i), (false, false, false, false, false), fuel)
}

/// The level of `h1`…`h6`.
pub open spec fn heading_tag_level(name: Seq<char>) -> Option<nat> {
    if name.len() == 2 && name[0] == 'h' && '1' <= name[1] && name[1] <= '6' {
        Some(((name[1] as u32) - 48) as nat)
    } else {
        None
    }
}

/// The style of a heading one level below `level`'s place: embedded
/// headings continue under the document title, two below, at most six.
pub open spec fn shifted_heading_style(level: nat) -> Seq<char> {
    "Heading"@ + seq![digit(if level + 2 < 6 {
        level + 2
    } else {
        6
    })]
}

/// The prefix of the `k`-th item (from 1) of a bullet or numbered list.
pub open spec fn item_prefix(ordered: bool, k: nat) -> Seq<char> {
    if ordered {
        decimal(k) + ". "@
    } else {
        "• "@
    }
}

/// The paragraphs of the `li` elements among `kids`, numbered from `k`.
pub open spec fn list_items(ns: Seq<HtmlView>, kids: Seq<int>, ordered: bool, k: nat, fuel: nat) -> Seq<ParaView>
    decreases kids.len(),
{
    if kids.len() == 0 {
        Seq::empty()
    } else if 0 <= kids[0] < ns.len() && ns[kids[0]].1 == 0 && ns[kids[0]].2 == "li"@ {
        seq![(None::<Seq<char>>, false, seq![text_run(item_prefix(ordered, k))] + element_runs(ns, kids[0], fuel))]
            + list_items(ns, kids.drop_first(), ordered, k + 1, fuel)
    } else {
        list_items(ns, kids.drop_first(), ordered, k, fuel)
    }
}

/// The paragraphs of a block element; `quote` inside a blockquote.
pub open spec fn block_paras(ns: Seq<HtmlView>, i: int, quote: bool, fuel: nat) -> Seq<ParaView>
    decreases fuel, 0int,
{
    if fuel == 0 || i < 0 || i >= ns.len() {
        Seq::empty()
    } else {
        let name = ns[i].2;
        let f = (fuel - 1) as nat;
        match heading_tag_level(name) {
            Some(l) => seq![(Some(shifted_heading_style(l)), false, element_runs(ns, i, f))],
            None => if name == "p"@ {
                seq![(if quote {
                    Some("Quote"@)
                } else {
                    None
                }, false, element_runs(ns, i, f))]
            } else if name == "blockquote"@ {
                list_blocks(ns, hchildren(ns, i), true, f)
            } else if name == "ul"@ {
                list_items(ns, hchildren(ns, i), false, 1, f)
            } else if name == "ol"@ {
                list_items(ns, hchildren(ns, i), true, 1, f)
            } else if name == "hr"@ {
                seq![(None::<Seq<char>>, true, seq![text_run("⸻"@)])]
            } else if name == "pre"@ {
                let t = subtree_text(ns, i, i + 1);
                seq![(None::<Seq<char>>, false, seq![(seq![(false, without_newlines(t))], false, false, None::<Seq<char>>, false, None::<nat>, Some((Some("Consolas"@), None::<Seq<char>>)))])]
            } else if name == "br"@ {
                seq![(None::<Seq<char>>, false, Seq::<RunView>::empty())]
            } else {
                let runs = element_runs(ns, i, f);
                if runs.len() > 0 {
                    seq![(None::<Seq<char>>, false, runs)]
                } else {
                    Seq::empty()
                }
            },
        }
    }
}

/// The paragraphs of the listed element children, in order.
pub open spec fn list_blocks(ns: Seq<HtmlView>, kids: Seq<int>, quote: bool, fuel: nat) -> Seq<ParaView>
    decreases fuel, 1 + kids.len(),
{
    if kids.len() == 0 {
        Seq::empty()
    } else if 0 <= kids[0] < ns.len() && ns[kids[0]].1 == 0 {
        block_paras(ns, kids[0], quote, fuel) + list_blocks(ns, kids.drop_first(), quote, fuel)
    } else {
        list_blocks(ns, kids.drop_first(), quote, fuel)
    }
}

/// The paragraphs of a parsed fragment: its top-level elements as blocks.
/// With a node list a branch is at most as deep as there are nodes, so
/// that much fuel reaches every node.
pub open spec fn fragment_paras(ns: Seq<HtmlView>) -> Seq<ParaView> {
    if ns.len() == 0 {
        Seq::empty()
    } else {
        list_blocks(ns, hchildren(ns, 0), false, ns.len())
    }
}

/// The states of some runs.
pub open spec fn runs_view(v: Seq<Run>) -> Seq<RunView> {
    v.map_values(|r: Run| run_state(r))
}

/// The states of some paragraphs.
pub open spec fn paras_view(v: Seq<Paragraph>) -> Seq<ParaView> {
    v.map_values(|p: Paragraph| para_state(p))
}

/// Append `r` to `out`.
fn push_run(out: &mut Vec<Run>, r: Run)
    ensures
        runs_view(final(out)@) == runs_view(old(out)@).push(run_state(r)),
{
    let ghost rs = run_state(r);
    out.push(r);
    assert(runs_view(out@) =~= runs_view(old(out)@).push(rs));
}

/// Append every run of `more` to `out`.
fn append_runs(out: &mut Vec<Run>, more: Vec<Run>)
    ensures
        runs_view(final(out)@) == runs_view(old(out)@) + runs_view(more@),
{
    let mut more = more;
    let ghost all = runs_view(more@);
    while more.len() > 0
        invariant
            runs_view(out@) + runs_view(more@) == runs_view(old(out)@) + all,
        decreases more@.len(),
    {
        let ghost before = runs_view(more@);
        let r = more.remove(0);
        assert(runs_view(more@) =~= before.drop_first());
        assert(before[0] == run_state(r));
        push_run(out, r);
        assert(runs_view(out@) + runs_view(more@) =~= runs_view(old(out)@) + all);
    }
    assert(runs_view(more@) =~= Seq::<RunView>::empty());
    assert(runs_view(out@) =~= runs_view(out@) + runs_view(more@));
}

/// Append `p` to `out`.
fn push_para(out: &mut Vec<Paragraph>, p: Paragraph)
    ensures
        paras_view(final(out)@) == paras_view(old(out)@).push(para_state(p)),
{
    let ghost ps = para_state(p);
    out.push(p);
    assert(paras_view(out@) =~= paras_view(old(out)@).push(ps));
}

/// Append every paragraph of `more` to `out`.
pub(crate) fn append_paras(out: &mut Vec<Paragraph>, more: Vec<Paragraph>)
    ensures
        paras_view(final(out)@) == paras_view(old(out)@) + paras_view(more@),
{
    let mut more = more;
    let ghost all = paras_view(more@);
    while more.len() > 0
        invariant
            paras_view(out@) + paras_view(more@) == paras_view(old(out)@) + all,
        decreases more@.len(),
    {
        let ghost before = paras_view(more@);
        let p = more.remove(0);
        assert(paras_view(more@) =~= before.drop_first());
        assert(before[0] == para_state(p));
        push_para(out, p);
        assert(paras_view(out@) + paras_view(more@) =~= paras_view(old(out)@) + all);
    }
    assert(paras_view(more@) =~= Seq::<ParaView>::empty());
    assert(paras_view(out@) =~= paras_view(out@) + paras_view(more@));
}

/// A paragraph with the given style, alignment and runs.
pub(crate) fn paragraph_of(style: Option<&str>, center: bool, runs: Vec<Run>) -> (p: Paragraph)
    ensures
        para_state(p) == (match style {
            Some(s) => Some(s@),
            None => None,
        }, center, runs_view(runs@)),
{
    let mut p = para_new();
    match style {
        Some(s) => {
            p = para_style(p, s);
        },
        None => {},
    }
    if center {
        p = para_center(p);
    }
    let mut runs = runs;
    let ghost all = runs_view(runs@);
    assert(para_state(p).2 =~= Seq::<RunView>::empty());
    while runs.len() > 0
        invariant
            para_state(p).2 + runs_view(runs@) == all,
            para_state(p).0 == match style {
                Some(s) => Some(s@),
                None => None,
            },
            para_state(p).1 == center,
        decreases runs@.len(),
    {
        let ghost before = runs_view(runs@);
        let r = runs.remove(0);
        assert(runs_view(runs@) =~= before.drop_first());
        assert(before[0] == run_state(r));
        let ghost old_runs = para_state(p).2;
        p = para_add_run(p, r);
        assert(para_state(p).2 + runs_view(runs@) =~= old_runs + before);
    }
    assert(runs_view(runs@) =~= Seq::<RunView>::empty());
    assert(para_state(p).2 =~= para_state(p).2 + runs_view(runs@));
    p
}

/// A run of plain text.
pub(crate) fn text_run_exec(t: &str) -> (r: Run)
    ensures
        run_state(r) == text_run(t@),
{
    run_add_text(run_new(), t)
}

/// A run of text with the marks applied.
fn marked_run_exec(t: &str, m: Marks) -> (r: Run)
    ensures
        run_state(r) == marked_run(t@, m),
{
    let mut r = run_add_text(run_new(), t);
    if m.0 {
        r = run_bold(r);
    }
    if m.1 {
        r = run_italic(r);
    }
    if m.2 {
        r = run_underline(r, "single");
    }
    if m.3 {
        r = run_strike(r);
    }
    if m.4 {
        r = run_font_ascii(r, "Consolas");
    }
    r
}

/// Whether a string equals a literal.
fn is_str(a: &str, lit: &str) -> (r: bool)
    ensures
        r == (a@ == lit@),
{
    let x = chars_of(a);
    let y = chars_of(lit);
    crate::text::chars_eq(&x, &y)
}

/// `merged` computed.
fn merged_exec(m: Marks, name: &str) -> (r: Marks)
    ensures
        r == merged(m, name@),
{
    if is_str(name, "strong") || is_str(name, "b") {
        (true, m.1, m.2, m.3, m.4)
    } else if is_str(name, "em") || is_str(name, "i") {
        (m.0, true, m.2, m.3, m.4)
    } else if is_str(name, "u") {
        (m.0, m.1, true, m.3, m.4)
    } else if is_str(name, "s") || is_str(name, "del") || is_str(name, "strike") {
        (m.0, m.1, m.2, true, m.4)
    } else if is_str(name, "code") {
        (m.0, m.1, m.2, m.3, true)
    } else {
        m
    }
}

/// The node views of the exec nodes.
pub open spec fn hv(nodes: &Vec<HtmlNode>) -> Seq<HtmlView> {
    html_views(nodes@)
}

/// The children of node `i`.
fn hchildren_exec(nodes: &Vec<HtmlNode>, i: usize) -> (r: Vec<usize>)
    requires
        i < nodes@.len(),
    ensures
        r@.map_values(|k: usize| k as int) == hchildren(hv(nodes), i as int),
        forall|t: int| 0 <= t < r@.len() ==> r@[t] < nodes@.len(),
{
    let ghost ns = hv(nodes);
    let mut r: Vec<usize> = Vec::new();
    let n = nodes.len();
    let mut j = i + 1;
    assert(ns[i as int].0 == nodes@[i as int].depth);
    while j < n && nodes[j].depth > nodes[i].depth
        invariant
            i < j <= nodes@.len(),
            n == nodes@.len(),
            ns == hv(nodes),
            forall|t: int| 0 <= t < r@.len() ==> r@[t] < j,
            r@.map_values(|k: usize| k as int) + hchild_list(ns, i as int, j as int) == hchildren(
                ns,
                i as int,
            ),
        decreases nodes@.len() - j,
    {
        assert(ns[j as int].0 == nodes@[j as int].depth);
        assert(ns[i as int].0 == nodes@[i as int].depth);
        let ghost before = r@.map_values(|k: usize| k as int);
        if nodes[j].depth == nodes[i].depth + 1 {
            r.push(j);
            assert(r@.map_values(|k: usize| k as int) =~= before.push(j as int));
            assert(before.push(j as int) + hchild_list(ns, i as int, j + 1) =~= before + (seq![
                j as int,
            ] + hchild_list(ns, i as int, j + 1)));
        }
        j += 1;
    }
    proof {
        if j < nodes.len() {
            assert(ns[j as int].0 == nodes@[j as int].depth);
            assert(ns[i as int].0 == nodes@[i as int].depth);
        }
        assert(hchild_list(ns, i as int, j as int) =~= Seq::<int>::empty());
        assert(r@.map_values(|k: usize| k as int) + Seq::<int>::empty() =~= r@.map_values(
            |k: usize| k as int,
        ));
    }
    r
}

/// The text below node `i`.
fn subtree_text_exec(nodes: &Vec<HtmlNode>, i: usize) -> (r: String)
    requires
        i < nodes@.len(),
    ensures
        r@ == subtree_text(hv(nodes), i as int, i + 1),
{
    let ghost ns = hv(nodes);
    let mut r = String::new();
    let n = nodes.len();
    let mut j = i + 1;
    assert(ns[i as int].0 == nodes@[i as int].depth);
    while j < n && nodes[j].depth > nodes[i].depth
        invariant
            i < j <= nodes@.len(),
            n == nodes@.len(),
            ns == hv(nodes),
            r@ + subtree_text(ns, i as int, j as int) == subtree_text(ns, i as int, i + 1),
        decreases nodes@.len() - j,
    {
        assert(ns[j as int].0 == nodes@[j as int].depth);
        assert(ns[i as int].0 == nodes@[i as int].depth);
        let ghost before = r@;
        match nodes[j].kind {
            HtmlKind::Text => {
                r.append(nodes[j].text.as_str());
            },
            _ => {},
        }
        assert(r@ + subtree_text(ns, i as int, j + 1) =~= before + subtree_text(ns, i as int, j as int));
        j += 1;
    }
    proof {
        if j < nodes.len() {
            assert(ns[j as int].0 == nodes@[j as int].depth);
            assert(ns[i as int].0 == nodes@[i as int].depth);
        }
        assert(r@ + Seq::<char>::empty() =~= r@);
    }
    r
}

/// `node_runs` computed.
fn node_runs_exec(nodes: &Vec<HtmlNode>, i: usize, m: Marks, fuel: usize) -> (r: Vec<Run>)
    requires
        i < nodes@.len(),
    ensures
        runs_view(r@) == node_runs(hv(nodes), i as int, m, fuel as nat),
    decreases fuel,
{
    let ghost ns = hv(nodes);
    assert(ns[i as int] == html_view(nodes@[i as int]));
    let mut out: Vec<Run> = Vec::new();
    if fuel == 0 {
        assert(runs_view(out@) =~= Seq::<RunView>::empty());
        return out;
    }
    match nodes[i].kind {
        HtmlKind::Text => {
            if nodes[i].text.as_str().unicode_len() > 0 {
                push_run(&mut out, marked_run_exec(nodes[i].text.as_str(), m));
            }
        },
        HtmlKind::Element => {
            if is_str(nodes[i].name.as_str(), "br") {
                push_run(&mut out, run_add_break(run_new(), false));
            } else {
                let m2 = merged_exec(m, nodes[i].name.as_str());
                let kids = hchildren_exec(nodes, i);
                let ghost kv = kids@.map_values(|k: usize| k as int);
                let ghost f = (fuel - 1) as nat;
                let mut t: usize = 0;
                assert(kv.skip(0) =~= kv);
                while t < kids.len()
                    invariant
                        t <= kids@.len(),
                        ns == hv(nodes),
                        kv == kids@.map_values(|k: usize| k as int),
                        forall|q: int| 0 <= q < kids@.len() ==> kids@[q] < nodes@.len(),
                        f == fuel - 1,
                        runs_view(out@) + list_runs(ns, kv.skip(t as int), m2, f) == list_runs(ns, kv, m2, f),
                    decreases kids@.len() - t,
                {
                    let ghost before = runs_view(out@);
                    assert(kv.skip(t as int)[0] == kids@[t as int] as int);
                    assert(kv.skip(t as int).drop_first() =~= kv.skip(t + 1));
                    let sub = node_runs_exec(nodes, kids[t], m2, fuel - 1);
                    append_runs(&mut out, sub);
                    assert(runs_view(out@) + list_runs(ns, kv.skip(t + 1), m2, f) =~= before + list_runs(
                        ns,
                        kv.skip(t as int),
                        m2,
                        f,
                    ));
                    t += 1;
                }
                assert(kv.skip(t as int) =~= Seq::<int>::empty());
                assert(runs_view(out@) =~= runs_view(out@) + list_runs(ns, kv.skip(t as int), m2, f));
            }
        },
        HtmlKind::Other => {},
    }
    proof {
        assert(runs_view(out@) =~= node_runs(ns, i as int, m, fuel as nat));
    }
    out
}

/// `element_runs` computed.
fn element_runs_exec(nodes: &Vec<HtmlNode>, i: usize, fuel: usize) -> (r: Vec<Run>)
    requires
        i < nodes@.len(),
    ensures
        runs_view(r@) == element_runs(hv(nodes), i as int, fuel as nat),
{
    let ghost ns = hv(nodes);
    let m: Marks = (false, false, false, false, false);
    let kids = hchildren_exec(nodes, i);
    let ghost kv = kids@.map_values(|k: usize| k as int);
    let mut out: Vec<Run> = Vec::new();
    let mut t: usize = 0;
    assert(kv.skip(0) =~= kv);
    assert(runs_view(out@) =~= Seq::<RunView>::empty());
    while t < kids.len()
        invariant
            t <= kids@.len(),
            ns == hv(nodes),
            kv == kids@.map_values(|k: usize| k as int),
            forall|q: int| 0 <= q < kids@.len() ==> kids@[q] < nodes@.len(),
            runs_view(out@) + list_runs(ns, kv.skip(t as int), m, fuel as nat) == list_runs(ns, kv, m, fuel as nat),
        decreases kids@.len() - t,
    {
        let ghost before = runs_view(out@);
        assert(kv.skip(t as int)[0] == kids@[t as int] as int);
        assert(kv.skip(t as int).drop_first() =~= kv.skip(t + 1));
        let sub = node_runs_exec(nodes, kids[t], m, fuel);
        append_runs(&mut out, sub);
        assert(runs_view(out@) + list_runs(ns, kv.skip(t + 1), m, fuel as nat) =~= before + list_runs(
            ns,
            kv.skip(t as int),
            m,
            fuel as nat,
        ));
        t += 1;
    }
    assert(kv.skip(t as int) =~= Seq::<int>::empty());
    assert(runs_view(out@) =~= runs_view(out@) + list_runs(ns, kv.skip(t as int), m, fuel as nat));
    out
}

/// `heading_tag_level` computed.
fn heading_tag_level_exec(name: &str) -> (r: Option<u32>)
    ensures
        match r {
            Some(l) => heading_tag_level(name@) == Some(l as nat) && 1 <= l <= 6,
            None => heading_tag_level(name@) is None,
        },
{
    let v = chars_of(name);
    if v.len() == 2 && v[0] == 'h' && '1' <= v[1] && v[1] <= '6' {
        Some((v[1] as u32) - 48)
    } else {
        None
    }
}

/// `shifted_heading_style` computed.
fn shifted_heading_style_exec(level: u32) -> (r: String)
    requires
        1 <= level <= 6,
    ensures
        r@ == shifted_heading_style(level as nat),
{
    let l: u32 = if level + 2 < 6 {
        level + 2
    } else {
        6
    };
    let mut r = String::from_str("Heading");
    crate::text::push_char(&mut r, crate::text::char_from_ascii(48 + l));
    r
}

/// The item paragraphs of a list element.
fn list_items_exec(nodes: &Vec<HtmlNode>, i: usize, ordered: bool, fuel: usize) -> (r: Vec<Paragraph>)
    requires
        i < nodes@.len(),
    ensures
        paras_view(r@) == list_items(hv(nodes), hchildren(hv(nodes), i as int), ordered, 1, fuel as nat),
{
    let ghost ns = hv(nodes);
    let kids = hchildren_exec(nodes, i);
    let ghost kv = kids@.map_values(|k: usize| k as int);
    let mut out: Vec<Paragraph> = Vec::new();
    let mut k: u128 = 1;
    let mut t: usize = 0;
    assert(kv.skip(0) =~= kv);
    assert(paras_view(out@) =~= Seq::<ParaView>::empty());
    while t < kids.len()
        invariant
            t <= kids@.len(),
            1 <= k <= t + 1,
            ns == hv(nodes),
            kv == kids@.map_values(|k: usize| k as int),
            forall|q: int| 0 <= q < kids@.len() ==> kids@[q] < nodes@.len(),
            paras_view(out@) + list_items(ns, kv.skip(t as int), ordered, k as nat, fuel as nat)
                == list_items(ns, kv, ordered, 1, fuel as nat),
        decreases kids@.len() - t,
    {
        let ghost before = paras_view(out@);
        let c = kids[t];
        assert(kv.skip(t as int)[0] == c as int);
        assert(kv.skip(t as int).drop_first() =~= kv.skip(t + 1));
        assert(ns[c as int] == html_view(nodes@[c as int]));
        let is_li = match nodes[c].kind {
            HtmlKind::Element => is_str(nodes[c].name.as_str(), "li"),
            _ => false,
        };
        if is_li {
            let mut prefix = String::new();
            if ordered {
                push_decimal(&mut prefix, k);
                prefix.append(". ");
            } else {
                prefix.append("• ");
            }
            assert(prefix@ =~= item_prefix(ordered, k as nat));
            let mut runs: Vec<Run> = Vec::new();
            push_run(&mut runs, text_run_exec(prefix.as_str()));
            let more = element_runs_exec(nodes, c, fuel);
            append_runs(&mut runs, more);
            assert(runs_view(runs@) =~= seq![text_run(item_prefix(ordered, k as nat))] + element_runs(
                ns,
                c as int,
                fuel as nat,
            ));
            let p = paragraph_of(None, false, runs);
            push_para(&mut out, p);
            assert(paras_view(out@) + list_items(ns, kv.skip(t + 1), ordered, (k + 1) as nat, fuel as nat)
                =~= before + list_items(ns, kv.skip(t as int), ordered, k as nat, fuel as nat));
            k += 1;
        }
        t += 1;
    }
    assert(kv.skip(t as int) =~= Seq::<int>::empty());
    assert(paras_view(out@) =~= paras_view(out@) + list_items(ns, kv.skip(t as int), ordered, k as nat, fuel as nat));
    out
}

/// `block_paras` computed.
fn block_paras_exec(nodes: &Vec<HtmlNode>, i: usize, quote: bool, fuel: usize) -> (r: Vec<Paragraph>)
    requires
        i < nodes@.len(),
    ensures
        paras_view(r@) == block_paras(hv(nodes), i as int, quote, fuel as nat),
    decreases fuel, 0int,
{
    let ghost ns = hv(nodes);
    assert(ns[i as int] == html_view(nodes@[i as int]));
    let mut out: Vec<Paragraph> = Vec::new();
    assert(paras_view(out@) =~= Seq::<ParaView>::empty());
    if fuel == 0 {
        return out;
    }
    let f = fuel - 1;
    let name = nodes[i].name.as_str();
    match heading_tag_level_exec(name) {
        Some(l) => {
            let style = shifted_heading_style_exec(l);
            let runs = element_runs_exec(nodes, i, f);
            push_para(&mut out, paragraph_of(Some(style.as_str()), false, runs));
            assert(paras_view(out@) =~= block_paras(ns, i as int, quote, fuel as nat));
        },
        None => {
            if is_str(name, "p") {
                let runs = element_runs_exec(nodes, i, f);
                let style: Option<&str> = if quote {
                    Some("Quote")
                } else {
                    None
                };
                push_para(&mut out, paragraph_of(style, false, runs));
                assert(paras_view(out@) =~= block_paras(ns, i as int, quote, fuel as nat));
            } else if is_str(name, "blockquote") {
                let sub = list_blocks_exec(nodes, i, true, f);
                append_paras(&mut out, sub);
                assert(paras_view(out@) =~= block_paras(ns, i as int, quote, fuel as nat));
            } else if is_str(name, "ul") {
                let sub = list_items_exec(nodes, i, false, f);
                append_paras(&mut out, sub);
                assert(paras_view(out@) =~= block_paras(ns, i as int, quote, fuel as nat));
            } else if is_str(name, "ol") {
                let sub = list_items_exec(nodes, i, true, f);
                append_paras(&mut out, sub);
                assert(paras_view(out@) =~= block_paras(ns, i as int, quote, fuel as nat));
            } else if is_str(name, "hr") {
                let mut runs: Vec<Run> = Vec::new();
                assert(runs_view(runs@) =~= Seq::<RunView>::empty());
                push_run(&mut runs, text_run_exec("⸻"));
                push_para(&mut out, paragraph_of(None, true, runs));
                assert(paras_view(out@) =~= block_paras(ns, i as int, quote, fuel as nat));
            } else if is_str(name, "pre") {
                let t = subtree_text_exec(nodes, i);
                let r = run_font_ascii(run_add_text(run_new(), t.as_str()), "Consolas");
                let mut runs: Vec<Run> = Vec::new();
                assert(runs_view(runs@) =~= Seq::<RunView>::empty());
                push_run(&mut runs, r);
                push_para(&mut out, paragraph_of(None, false, runs));
                assert(paras_view(out@) =~= block_paras(ns, i as int, quote, fuel as nat));
            } else if is_str(name, "br") {
                let none: Vec<Run> = Vec::new();
                assert(runs_view(none@) =~= Seq::<RunView>::empty());
                push_para(&mut out, paragraph_of(None, false, none));
                assert(paras_view(out@) =~= block_paras(ns, i as int, quote, fuel as nat));
            } else {
                let runs = element_runs_exec(nodes, i, f);
                if runs.len() > 0 {
                    push_para(&mut out, paragraph_of(None, false, runs));
                }
                assert(paras_view(out@) =~= block_paras(ns, i as int, quote, fuel as nat));
            }
        },
    }
    proof {
        assert(paras_view(out@) =~= block_paras(ns, i as int, quote, fuel as nat));
    }
    out
}

/// The paragraphs of the element children of node `i`.
fn list_blocks_exec(nodes: &Vec<HtmlNode>, i: usize, quote: bool, fuel: usize) -> (r: Vec<Paragraph>)
    requires
        i < nodes@.len(),
    ensures
        paras_view(r@) == list_blocks(hv(nodes), hchildren(hv(nodes), i as int), quote, fuel as nat),
    decreases fuel, 1int,
{
    let ghost ns = hv(nodes);
    let kids = hchildren_exec(nodes, i);
    let ghost kv = kids@.map_values(|k: usize| k as int);
    let mut out: Vec<Paragraph> = Vec::new();
    let mut t: usize = 0;
    assert(kv.skip(0) =~= kv);
    assert(paras_view(out@) =~= Seq::<ParaView>::empty());
    while t < kids.len()
        invariant
            t <= kids@.len(),
            ns == hv(nodes),
            kv == kids@.map_values(|k: usize| k as int),
            forall|q: int| 0 <= q < kids@.len() ==> kids@[q] < nodes@.len(),
            paras_view(out@) + list_blocks(ns, kv.skip(t as int), quote, fuel as nat) == list_blocks(
                ns,
                kv,
                quote,
                fuel as nat,
            ),
        decreases kids@.len() - t,
    {
        let ghost before = paras_view(out@);
        let c = kids[t];
        assert(kv.skip(t as int)[0] == c as int);
        assert(kv.skip(t as int).drop_first() =~= kv.skip(t + 1));
        assert(ns[c as int] == html_view(nodes@[c as int]));
        match nodes[c].kind {
            HtmlKind::Element => {
                let sub = block_paras_exec(nodes, c, quote, fuel);
                append_paras(&mut out, sub);
            },
            _ => {},
        }
        assert(paras_view(out@) + list_blocks(ns, kv.skip(t + 1), quote, fuel as nat) =~= before
            + list_blocks(ns, kv.skip(t as int), quote, fuel as nat));
        t += 1;
    }
    assert(kv.skip(t as int) =~= Seq::<int>::empty());
    assert(paras_view(out@) =~= paras_view(out@) + list_blocks(ns, kv.skip(t as int), quote, fuel as nat));
    out
}

/// Convert a TipTap HTML fragment to paragraphs: headings shifted two
/// levels down, paragraphs (quoted inside blockquotes), list items with a
/// bullet or number, a centred rule, code blocks in Consolas, inline
/// bold/italic/underline/strike/code marks and line breaks.
pub fn render_html_blocks(html: &str) -> (r: Vec<Paragraph>)
    ensures
        paras_view(r@) == fragment_paras(html_fragment(html@)),
{
    let nodes = parse_fragment(html);
    if nodes.len() == 0 {
        let r: Vec<Paragraph> = Vec::new();
        assert(paras_view(r@) =~= Seq::<ParaView>::empty());
        return r;
    }
    list_blocks_exec(&nodes, 0, false, nodes.len())
}

/// A bold run of text.
pub open spec fn bold_run(t: Seq<char>) -> RunView {
    (seq![(false, without_newlines(t))], true, false, None, false, None, None)
}

/// The paragraphs of one codex entry: its name as a third-level heading,
/// its tags in italics when there are any, its body HTML when not blank.
pub open spec fn codex_entry_paras(e: CodexEntry) -> Seq<ParaView> {
    let tags = if e.tags@.len() > 0 {
        seq![(None::<Seq<char>>, false, seq![(seq![(false, without_newlines(join(string_views(e.tags@), ", "@)))], false, true, None::<Seq<char>>, false, None::<nat>, None::<(Option<Seq<char>>, Option<Seq<char>>)>)])]
    } else {
        Seq::<ParaView>::empty()
    };
    let body = match e.body {
        Some(b) => if trim(b@).len() > 0 {
            fragment_paras(html_fragment(b@))
        } else {
            Seq::<ParaView>::empty()
        },
        None => Seq::<ParaView>::empty(),
    };
    seq![(Some("Heading3"@), false, seq![bold_run(e.name@)])] + tags + body
}

/// The paragraphs of the listed entries.
pub open spec fn entries_paras(codex: Seq<CodexEntry>, idx: Seq<int>) -> Seq<ParaView>
    decreases idx.len(),
{
    if idx.len() == 0 {
        Seq::empty()
    } else {
        entries_paras(codex, idx.drop_last()) + codex_entry_paras(codex[idx.last()])
    }
}

/// The section of one kind: a second-level heading, then its entries by
/// name; nothing when the kind has no entry.
pub open spec fn kind_paras(codex: Seq<CodexEntry>, kind: CodexKind) -> Seq<ParaView> {
    let raw = kind_upto(codex, kind, codex.len() as int);
    if raw.len() == 0 {
        Seq::empty()
    } else {
        seq![(Some("Heading2"@), false, seq![bold_run(section_name(kind))])] + entries_paras(
            codex,
            sort_by_name(codex, raw),
        )
    }
}

/// The sections of the listed kinds, in order.
pub open spec fn kinds_paras(codex: Seq<CodexEntry>, kinds: Seq<CodexKind>) -> Seq<ParaView>
    decreases kinds.len(),
{
    if kinds.len() == 0 {
        Seq::empty()
    } else {
        kinds_paras(codex, kinds.drop_last()) + kind_paras(codex, kinds.last())
    }
}

/// The Codex appendix: a page break, a `Codex` title (bold, 24 pt), then
/// characters, places, objects and notes.
pub open spec fn codex_paras(codex: Seq<CodexEntry>) -> Seq<ParaView> {
    seq![
        (None::<Seq<char>>, false, seq![page_break_run()]),
        (Some("Heading1"@), false, seq![(seq![(false, without_newlines("Codex"@))], true, false, None::<Seq<char>>, false, Some(48nat), None::<(Option<Seq<char>>, Option<Seq<char>>)>)]),
    ] + kinds_paras(codex, seq![CodexKind::Character, CodexKind::Place, CodexKind::Object, CodexKind::Note])
}

/// A paragraph of one page break.
pub(crate) fn page_break_para() -> (p: Paragraph)
    ensures
        para_state(p) == (None::<Seq<char>>, false, seq![page_break_run()]),
{
    let mut runs: Vec<Run> = Vec::new();
    assert(runs_view(runs@) =~= Seq::<RunView>::empty());
    push_run(&mut runs, run_add_break(run_new(), true));
    paragraph_of(None, false, runs)
}

/// A paragraph of one run.
fn single_run_para(style: Option<&str>, center: bool, r: Run) -> (p: Paragraph)
    ensures
        para_state(p) == (match style {
            Some(s) => Some(s@),
            None => None,
        }, center, seq![run_state(r)]),
{
    let mut runs: Vec<Run> = Vec::new();
    assert(runs_view(runs@) =~= Seq::<RunView>::empty());
    push_run(&mut runs, r);
    paragraph_of(style, center, runs)
}

/// The paragraphs of one codex entry.
fn codex_entry_exec(e: &CodexEntry) -> (r: Vec<Paragraph>)
    ensures
        paras_view(r@) == codex_entry_paras(*e),
{
    let mut out: Vec<Paragraph> = Vec::new();
    assert(paras_view(out@) =~= Seq::<ParaView>::empty());
    let name = run_bold(run_add_text(run_new(), e.name.as_str()));
    push_para(&mut out, single_run_para(Some("Heading3"), false, name));
    if e.tags.len() > 0 {
        let joined = join_strings(&e.tags, ", ");
        let r = run_italic(run_add_text(run_new(), joined.as_str()));
        push_para(&mut out, single_run_para(None, false, r));
    }
    match &e.body {
        Some(b) => {
            if trim_str(b.as_str()).len() > 0 {
                let more = render_html_blocks(b.as_str());
                append_paras(&mut out, more);
            }
        },
        None => {},
    }
    assert(paras_view(out@) =~= codex_entry_paras(*e));
    out
}

/// The paragraphs of the Codex appendix.
pub fn append_codex(codex: &[CodexEntry]) -> (r: Vec<Paragraph>)
    ensures
        paras_view(r@) == codex_paras(codex@),
{
    let keys = name_keys(codex);
    let mut out: Vec<Paragraph> = Vec::new();
    assert(paras_view(out@) =~= Seq::<ParaView>::empty());
    push_para(&mut out, page_break_para());
    let title = run_size(run_bold(run_add_text(run_new(), "Codex")), 48);
    push_para(&mut out, single_run_para(Some("Heading1"), false, title));
    let kinds = [CodexKind::Character, CodexKind::Place, CodexKind::Object, CodexKind::Note];
    let ghost head = paras_view(out@);
    let mut q: usize = 0;
    while q < 4
        invariant
            q <= 4,
            kinds@ == seq![CodexKind::Character, CodexKind::Place, CodexKind::Object, CodexKind::Note],
            keys@.len() == codex@.len(),
            forall|i: int| 0 <= i < keys@.len() ==> #[trigger] keys@[i]@ == name_key(codex@[i]),
            paras_view(out@) == head + kinds_paras(codex@, kinds@.take(q as int)),
        decreases 4 - q,
    {
        let kind = kinds[q];
        let sorted = sorted_kind(codex, &keys, kind);
        let ghost before = paras_view(out@);
        if sorted.len() > 0 {
            let name = match kind {
                CodexKind::Character => "Characters",
                CodexKind::Place => "Places",
                CodexKind::Object => "Objects",
                CodexKind::Note => "Notes",
            };
            let h = run_bold(run_add_text(run_new(), name));
            push_para(&mut out, single_run_para(Some("Heading2"), false, h));
            let ghost sv = sorted@.map_values(|v: usize| v as int);
            let ghost mid = paras_view(out@);
            let mut i: usize = 0;
            while i < sorted.len()
                invariant
                    i <= sorted@.len(),
                    sv == sorted@.map_values(|v: usize| v as int),
                    forall|t: int| 0 <= t < sorted@.len() ==> sorted@[t] < codex@.len(),
                    paras_view(out@) == mid + entries_paras(codex@, sv.take(i as int)),
                decreases sorted@.len() - i,
            {
                let more = codex_entry_exec(&codex[sorted[i]]);
                append_paras(&mut out, more);
                assert(sv.take(i + 1).drop_last() =~= sv.take(i as int));
                assert(sv.take(i + 1).last() == sorted@[i as int] as int);
                i += 1;
            }
            assert(sv.take(sorted@.len() as int) =~= sv);
        }
        proof {
            assert(kinds@.take(q + 1).drop_last() =~= kinds@.take(q as int));
            assert(kinds@.take(q + 1).last() == kind);
            assert(paras_view(out@) =~= before + kind_paras(codex@, kind));
        }
        q += 1;
    }
    proof {
        assert(kinds@.take(4) =~= kinds@);
        assert(paras_view(out@) =~= codex_paras(codex@));
    }
    out
}

} // verus!
