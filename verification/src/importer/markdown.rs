//! Markdown importer. Splits one Markdown file into a tree of documents
//! with the `#` headings as the nesting hierarchy: each section nests under
//! the most recent section of a smaller level. Body text between headings
//! goes to the preceding heading's section; text before the first heading
//! goes to a synthetic `Intro` section. Footnote definitions (`[^id]: …`)
//! are gathered and their references re-inlined as editor
//! `<sup data-footnote-id="…" data-footnote-content="…">` marks.
use vstd::prelude::*;
use vstd::string::*;

use pulldown_cmark::{Event, Options, Parser, Tag, TagEnd};

use crate::error::{AppError, AppResult};
use crate::ids::new_id;
use crate::importer::{ImportFormat, ImportNode, ImportService, ImportTree};
use crate::segments::{
    lines, lines_exec, strip_start, strip_exec, views, Sep,
};
use crate::text::{
    chars_eq, chars_of, extend_chars, extend_str, find_from, find_from_exec, lemma_find_from_occurs,
    slice_chars, starts_with, starts_with_exec, string_of, string_views, trim, trim_chars, trim_start,
};

verus! {

/// One Markdown event as the importer reads it.
#[derive(Debug, Clone, PartialEq, Eq)]
pub enum MdEvent {
    HeadingStart,
    HeadingEnd,
    FootnoteDefStart,
    FootnoteDefEnd,
    /// A footnote reference, with its label.
    FootnoteRef(String),
    /// Any other event.
    Other,
}

/// An event with its label as characters.
pub enum MdEventView {
    HeadingStart,
    HeadingEnd,
    FootnoteDefStart,
    FootnoteDefEnd,
    FootnoteRef(Seq<char>),
    Other,
}

impl View for MdEvent {
    type V = MdEventView;

    open spec fn view(&self) -> MdEventView {
        match self {
            MdEvent::HeadingStart => MdEventView::HeadingStart,
            MdEvent::HeadingEnd => MdEventView::HeadingEnd,
            MdEvent::FootnoteDefStart => MdEventView::FootnoteDefStart,
            MdEvent::FootnoteDefEnd => MdEventView::FootnoteDefEnd,
            MdEvent::FootnoteRef(s) => MdEventView::FootnoteRef(s@),
            MdEvent::Other => MdEventView::Other,
        }
    }
}

/// What becomes of one event in the rendered HTML.
#[derive(Debug, Clone, PartialEq, Eq)]
pub enum Piece {
    Keep,
    Drop,
    /// Replaced by this raw HTML.
    Html(String),
}

/// A piece with its HTML as characters.
pub enum PieceView {
    Keep,
    Drop,
    Html(Seq<char>),
}

impl View for Piece {
    type V = PieceView;

    open spec fn view(&self) -> PieceView {
        match self {
            Piece::Keep => PieceView::Keep,
            Piece::Drop => PieceView::Drop,
            Piece::Html(s) => PieceView::Html(s@),
        }
    }
}

/// The events `pulldown_cmark::Parser::new_ext` reads from a Markdown
/// text with the tables, strikethrough and footnotes extensions on or off
/// as the flags say, classified.
pub uninterp spec fn md_parsed_events(md: Seq<char>, tables: bool, strikethrough: bool, footnotes: bool) -> Seq<MdEventView>;

/// The HTML `pulldown_cmark::html::push_html` writes for the events of a
/// Markdown text, parsed with the extensions the flags say, once each
/// event is kept, dropped or replaced as `pieces` say.
pub uninterp spec fn md_rendered(
    md: Seq<char>,
    tables: bool,
    strikethrough: bool,
    footnotes: bool,
    pieces: Seq<PieceView>,
) -> Seq<char>;

/// The events the importer reads from a Markdown text: tables,
/// strikethrough and footnotes on.
pub open spec fn md_events(md: Seq<char>) -> Seq<MdEventView> {
    md_parsed_events(md, true, true, true)
}

/// The HTML the importer renders a Markdown text to, with the extensions
/// of `md_events`, once each event is taken as `pieces` say.
pub open spec fn rendered_markdown(md: Seq<char>, pieces: Seq<PieceView>) -> Seq<char> {
    md_rendered(md, true, true, true, pieces)
}

/// `pulldown_cmark::Options`, carried through unchanged.
#[verifier::external_type_specification]
#[verifier::external_body]
pub struct ExMdOptions(Options);

/// `pulldown_cmark::Options::empty()` with `set` of the tables,
/// strikethrough and footnotes extensions to the flags given. Nothing
/// is promised of the (opaque) value; the names below take the flags.
#[verifier::external_body]
fn md_options(tables: bool, strikethrough: bool, footnotes: bool) -> Options {
    let mut opts = Options::empty();
    opts.set(Options::ENABLE_TABLES, tables);
    opts.set(Options::ENABLE_STRIKETHROUGH, strikethrough);
    opts.set(Options::ENABLE_FOOTNOTES, footnotes);
    opts
}

/// `pulldown_cmark::Parser::new_ext` over `md` with the extensions the
/// flags say, each event classified.
#[verifier::external_body]
fn parse_md_events(md: &str, tables: bool, strikethrough: bool, footnotes: bool) -> (r: Vec<MdEvent>)
    ensures
        r@.map_values(|e: MdEvent| e@) == md_parsed_events(md@, tables, strikethrough, footnotes),
{
    Parser::new_ext(md, md_options(tables, strikethrough, footnotes)).map(|e| match e {
        Event::Start(Tag::Heading { .. }) => MdEvent::HeadingStart,
        Event::End(TagEnd::Heading(_)) => MdEvent::HeadingEnd,
        Event::Start(Tag::FootnoteDefinition(_)) => MdEvent::FootnoteDefStart,
        Event::End(TagEnd::FootnoteDefinition) => MdEvent::FootnoteDefEnd,
        Event::FootnoteReference(id) => MdEvent::FootnoteRef(id.to_string()),
        _ => MdEvent::Other,
    }).collect()
}

/// `pulldown_cmark::html::push_html` over the events of `md`, parsed with
/// the extensions the flags say, each taken as its piece says (a dropped
/// event becomes empty raw HTML, which the writer emits as nothing).
#[verifier::external_body]
fn render_md_pieces(md: &str, tables: bool, strikethrough: bool, footnotes: bool, pieces: &Vec<Piece>) -> (r: String)
    ensures
        r@ == md_rendered(md@, tables, strikethrough, footnotes, pieces@.map_values(|p: Piece| p@)),
{
    let opts = md_options(tables, strikethrough, footnotes);
    let events = Parser::new_ext(md, opts).zip(pieces.iter()).map(|(e, p)| match p {
        Piece::Keep => e,
        Piece::Drop => Event::Html("".into()),
        Piece::Html(h) => Event::Html(h.clone().into()),
    });
    let mut html = String::new();
    pulldown_cmark::html::push_html(&mut html, events);
    html
}

/// `String::from_utf8_lossy`: the text of the bytes, invalid sequences
/// replaced by U+FFFD.
pub uninterp spec fn utf8_lossy(b: Seq<u8>) -> Seq<char>;

/// Decode bytes as UTF-8, replacing invalid sequences.
#[verifier::external_body]
fn decode_lossy(bytes: &[u8]) -> (r: String)
    ensures
        r@ == utf8_lossy(bytes@),
{
    String::from_utf8_lossy(bytes).into_owned()
}

/// `s` without its first and last character when both are the same
/// quote (`"` or `'`), after trimming.
pub open spec fn unquoted(s: Seq<char>) -> Seq<char> {
    let t = trim(s);
    if t.len() >= 2 && ((t[0] == '"' && t.last() == '"') || (t[0] == '\'' && t.last() == '\'')) {
        t.subrange(1, t.len() - 1)
    } else {
        t
    }
}

/// Remove one pair of surrounding quotes.
pub fn unquote(s: &Vec<char>) -> (r: Vec<char>)
    ensures
        r@ == unquoted(s@),
{
    let t = trim_chars(s);
    let n = t.len();
    if n >= 2 && ((t[0] == '"' && t[n - 1] == '"') || (t[0] == '\'' && t[n - 1] == '\'')) {
        slice_chars(&t, 1, n - 1)
    } else {
        t
    }
}

/// The value of the first `title:` line of a front-matter block, unquoted.
pub open spec fn frontmatter_title(ls: Seq<Seq<char>>) -> Option<Seq<char>>
    decreases ls.len(),
{
    if ls.len() == 0 {
        None
    } else {
        let t = trim_start(ls[0]);
        if starts_with(t, "title:"@) {
            Some(unquoted(t.skip(6)))
        } else {
            frontmatter_title(ls.drop_first())
        }
    }
}

/// A text split from its YAML front matter: the text after the block and
/// the block's title, or the text unchanged when it opens with no block.
pub open spec fn peeled(text: Seq<char>) -> (Seq<char>, Option<Seq<char>>) {
    let t = strip_start(text, Sep::ByteOrderMark);
    if !starts_with(t, "---\n"@) {
        (text, None)
    } else {
        let rest = t.skip(4);
        match find_from(rest, "\n---\n"@, 0) {
            None => (text, None),
            Some(c) => (rest.skip(c + 5), frontmatter_title(lines(rest.take(c)))),
        }
    }
}

/// Find the title among the block's lines.
fn find_title(ls: &Vec<Vec<char>>) -> (r: Option<Vec<char>>)
    ensures
        match r {
            Some(t) => frontmatter_title(views(ls@)) == Some(t@),
            None => frontmatter_title(views(ls@)) is None,
        },
{
    let key = chars_of("title:");
    proof {
        reveal_strlit("title:");
        assert(key@.len() == 6);
        assert(views(ls@).skip(0) =~= views(ls@));
    }
    let mut i: usize = 0;
    while i < ls.len()
        invariant
            i <= ls@.len(),
            key@ == "title:"@,
            key@.len() == 6,
            frontmatter_title(views(ls@)) == frontmatter_title(views(ls@).skip(i as int)),
        decreases ls@.len() - i,
    {
        let ghost rest = views(ls@).skip(i as int);
        proof {
            assert(rest[0] == ls@[i as int]@);
            assert(rest.drop_first() =~= views(ls@).skip(i + 1));
        }
        let t = crate::text::trim_start_chars(&ls[i]);
        if starts_with_exec(&t, &key) {
            let after = slice_chars(&t, 6, t.len());
            assert(after@ =~= t@.skip(6));
            return Some(unquote(&after));
        }
        i += 1;
    }
    None
}

/// Split the YAML front matter off a text.
pub fn peel_frontmatter(text: &Vec<char>) -> (r: (Vec<char>, Option<Vec<char>>))
    ensures
        r.0@ == peeled(text@).0,
        match r.1 {
            Some(t) => peeled(text@).1 == Some(t@),
            None => peeled(text@).1 is None,
        },
{
    let t = crate::segments::strip_start_exec(text, Sep::ByteOrderMark);
    let open = chars_of("---\n");
    proof {
        reveal_strlit("---\n");
        assert(open@.len() == 4);
    }
    if !starts_with_exec(&t, &open) {
        return (text.clone(), None);
    }
    let rest = slice_chars(&t, 4, t.len());
    assert(rest@ =~= t@.skip(4));
    let close = chars_of("\n---\n");
    match find_from_exec(&rest, &close, 0) {
        None => (text.clone(), None),
        Some(c) => {
            proof {
                lemma_find_from_occurs(rest@, close@, 0);
                reveal_strlit("\n---\n");
                assert(close@.len() == 5);
            }
            let block = slice_chars(&rest, 0, c);
            let after = slice_chars(&rest, c + 5, rest.len());
            assert(block@ =~= rest@.take(c as int));
            assert(after@ =~= rest@.skip(c + 5));
            let ls = lines_exec(&block);
            (after, find_title(&ls))
        },
    }
}

/// The footnote definition a line holds: `[^id]: body` gives the id and
/// the trimmed body.
pub open spec fn footnote_def(line: Seq<char>) -> Option<(Seq<char>, Seq<char>)> {
    if !starts_with(line, "[^"@) {
        None
    } else {
        let rest = line.skip(2);
        match find_from(rest, "]: "@, 0) {
            None => None,
            Some(c) => Some((rest.take(c), trim(rest.skip(c + 3)))),
        }
    }
}

/// Every footnote definition among the lines, in order.
pub open spec fn footnote_defs(ls: Seq<Seq<char>>) -> Seq<(Seq<char>, Seq<char>)>
    decreases ls.len(),
{
    if ls.len() == 0 {
        Seq::empty()
    } else {
        let prev = footnote_defs(ls.drop_last());
        match footnote_def(ls.last()) {
            Some(d) => prev.push(d),
            None => prev,
        }
    }
}

/// The body of the last definition of `id`, or empty.
pub open spec fn footnote_body(defs: Seq<(Seq<char>, Seq<char>)>, id: Seq<char>) -> Seq<char>
    decreases defs.len(),
{
    if defs.len() == 0 {
        Seq::empty()
    } else if defs.last().0 == id {
        defs.last().1
    } else {
        footnote_body(defs.drop_last(), id)
    }
}

/// The views of a list of definitions.
pub open spec fn def_views(v: Seq<(Vec<char>, Vec<char>)>) -> Seq<(Seq<char>, Seq<char>)> {
    v.map_values(|d: (Vec<char>, Vec<char>)| (d.0@, d.1@))
}

/// Gather the `[^id]: body` lines of a text; the definitions stay in the
/// text for the parser to see the references.
pub fn scan_footnote_defs(body: &Vec<char>) -> (r: Vec<(Vec<char>, Vec<char>)>)
    ensures
        def_views(r@) == footnote_defs(lines(body@)),
{
    let ls = lines_exec(body);
    let open = chars_of("[^");
    let close = chars_of("]: ");
    proof {
        reveal_strlit("]: ");
        reveal_strlit("[^");
        assert(close@.len() == 3);
        assert(open@.len() == 2);
    }
    let mut out: Vec<(Vec<char>, Vec<char>)> = Vec::new();
    let mut i: usize = 0;
    while i < ls.len()
        invariant
            i <= ls@.len(),
            open@ == "[^"@,
            close@ == "]: "@,
            open@.len() == 2,
            close@.len() == 3,
            def_views(out@) == footnote_defs(views(ls@).take(i as int)),
        decreases ls@.len() - i,
    {
        let line = &ls[i];
        proof {
            assert(views(ls@).take(i + 1).drop_last() =~= views(ls@).take(i as int));
            assert(views(ls@).take(i + 1).last() == line@);
        }
        if starts_with_exec(line, &open) {
            let rest = slice_chars(line, 2, line.len());
            assert(rest@ =~= line@.skip(2));
            match find_from_exec(&rest, &close, 0) {
                Some(c) => {
                    proof {
                        lemma_find_from_occurs(rest@, close@, 0);
                    }
                    let id = slice_chars(&rest, 0, c);
                    let tail = slice_chars(&rest, c + 3, rest.len());
                    let content = trim_chars(&tail);
                    assert(id@ =~= rest@.take(c as int));
                    assert(tail@ =~= rest@.skip(c + 3));
                    let ghost before = out@;
                    out.push((id, content));
                    assert(def_views(out@) =~= def_views(before).push((id@, content@)));
                },
                None => {},
            }
        }
        i += 1;
    }
    assert(views(ls@).take(ls@.len() as int) =~= views(ls@));
    out
}

/// The body defined for `id` (the last definition wins), or empty.
fn lookup_footnote(defs: &Vec<(Vec<char>, Vec<char>)>, id: &Vec<char>) -> (r: Vec<char>)
    ensures
        r@ == footnote_body(def_views(defs@), id@),
{
    let mut i = defs.len();
    assert(def_views(defs@).take(i as int) =~= def_views(defs@));
    while i > 0
        invariant
            i <= defs@.len(),
            footnote_body(def_views(defs@), id@) == footnote_body(def_views(defs@).take(i as int), id@),
        decreases i,
    {
        assert(def_views(defs@).take(i as int).drop_last() =~= def_views(defs@).take(i - 1));
        assert(def_views(defs@).take(i as int).last() == (defs@[i - 1].0@, defs@[i - 1].1@));
        if chars_eq(&defs[i - 1].0, id) {
            return defs[i - 1].1.clone();
        }
        i -= 1;
    }
    Vec::new()
}

/// HTML attribute escaping of one character.
pub open spec fn attr_escaped(c: char) -> Seq<char> {
    if c == '&' {
        "&amp;"@
    } else if c == '<' {
        "&lt;"@
    } else if c == '>' {
        "&gt;"@
    } else if c == '"' {
        "&quot;"@
    } else {
        seq![c]
    }
}

/// HTML attribute escaping of a text.
pub open spec fn attr_escape(s: Seq<char>) -> Seq<char>
    decreases s.len(),
{
    if s.len() == 0 {
        Seq::empty()
    } else {
        attr_escape(s.drop_last()) + attr_escaped(s.last())
    }
}

/// Escape `&`, `<`, `>` and `"` for an attribute value.
pub fn escape_attr(s: &Vec<char>) -> (r: Vec<char>)
    ensures
        r@ == attr_escape(s@),
{
    let mut r: Vec<char> = Vec::new();
    let mut i: usize = 0;
    while i < s.len()
        invariant
            i <= s@.len(),
            r@ == attr_escape(s@.take(i as int)),
        decreases s@.len() - i,
    {
        let c = s[i];
        assert(s@.take(i + 1).drop_last() =~= s@.take(i as int));
        let ghost before = r@;
        if c == '&' {
            extend_str(&mut r, "&amp;");
        } else if c == '<' {
            extend_str(&mut r, "&lt;");
        } else if c == '>' {
            extend_str(&mut r, "&gt;");
        } else if c == '"' {
            extend_str(&mut r, "&quot;");
        } else {
            r.push(c);
            assert(r@ =~= before + seq![c]);
        }
        i += 1;
    }
    assert(s@.take(s@.len() as int) =~= s@);
    r
}

/// The editor mark of a footnote reference.
pub open spec fn footnote_sup(fid: Seq<char>, content: Seq<char>) -> Seq<char> {
    "<sup class=\"footnote-ref\" data-footnote-id=\""@ + fid + "\" data-footnote-content=\""@
        + attr_escape(content) + "\">†</sup>"@
}

/// What becomes of each event: headings and footnote definitions (with
/// everything inside them) are dropped, references become editor marks
/// (with the id at the same position in `ids`), the rest is kept.
pub open spec fn event_pieces(
    events: Seq<MdEventView>,
    defs: Seq<(Seq<char>, Seq<char>)>,
    ids: Seq<Seq<char>>,
) -> Seq<PieceView>
    decreases events.len(),
{
    if events.len() == 0 {
        Seq::empty()
    } else {
        let prev = event_pieces(events.drop_last(), defs, ids);
        let inside = in_definition(events.drop_last());
        let p = match events.last() {
            MdEventView::FootnoteRef(id) => if inside {
                PieceView::Drop
            } else {
                PieceView::Html(footnote_sup(ids[events.len() - 1], footnote_body(defs, id)))
            },
            MdEventView::Other => if inside {
                PieceView::Drop
            } else {
                PieceView::Keep
            },
            _ => PieceView::Drop,
        };
        prev.push(p)
    }
}

/// Whether the events leave the reader inside a footnote definition.
pub open spec fn in_definition(events: Seq<MdEventView>) -> bool
    decreases events.len(),
{
    if events.len() == 0 {
        false
    } else {
        match events.last() {
            MdEventView::FootnoteDefStart => true,
            MdEventView::FootnoteDefEnd => false,
            _ => in_definition(events.drop_last()),
        }
    }
}

/// Decide what becomes of each event.
pub fn pieces_for(
    events: &Vec<MdEvent>,
    defs: &Vec<(Vec<char>, Vec<char>)>,
    ids: &Vec<String>,
) -> (r: Vec<Piece>)
    requires
        ids@.len() == events@.len(),
    ensures
        r@.map_values(|p: Piece| p@) == event_pieces(
            events@.map_values(|e: MdEvent| e@),
            def_views(defs@),
            string_views(ids@),
        ),
{
    let ghost ev = events@.map_values(|e: MdEvent| e@);
    let ghost dv = def_views(defs@);
    let ghost iv = string_views(ids@);
    let mut out: Vec<Piece> = Vec::new();
    let mut inside = false;
    let mut i: usize = 0;
    while i < events.len()
        invariant
            i <= events@.len(),
            ids@.len() == events@.len(),
            ev == events@.map_values(|e: MdEvent| e@),
            dv == def_views(defs@),
            iv == string_views(ids@),
            inside == in_definition(ev.take(i as int)),
            out@.map_values(|p: Piece| p@) == event_pieces(ev.take(i as int), dv, iv),
        decreases events@.len() - i,
    {
        let ghost pre = ev.take(i as int);
        proof {
            assert(ev.take(i + 1).drop_last() =~= pre);
            assert(ev.take(i + 1).last() == events@[i as int]@);
        }
        let p = match &events[i] {
            MdEvent::FootnoteDefStart => {
                inside = true;
                Piece::Drop
            },
            MdEvent::FootnoteDefEnd => {
                inside = false;
                Piece::Drop
            },
            MdEvent::HeadingStart | MdEvent::HeadingEnd => Piece::Drop,
            MdEvent::FootnoteRef(id) => {
                if inside {
                    Piece::Drop
                } else {
                    let content = lookup_footnote(defs, &chars_of(id.as_str()));
                    let mut h: Vec<char> = Vec::new();
                    extend_str(&mut h, "<sup class=\"footnote-ref\" data-footnote-id=\"");
                    extend_str(&mut h, ids[i].as_str());
                    extend_str(&mut h, "\" data-footnote-content=\"");
                    extend_chars(&mut h, &escape_attr(&content));
                    extend_str(&mut h, "\">†</sup>");
                    proof {
                        assert(iv[i as int] == ids@[i as int]@);
                    }
                    Piece::Html(string_of(&h))
                }
            },
            MdEvent::Other => {
                if inside {
                    Piece::Drop
                } else {
                    Piece::Keep
                }
            },
        };
        let ghost before = out@.map_values(|q: Piece| q@);
        out.push(p);
        assert(out@.map_values(|q: Piece| q@) =~= before.push(p@));
        i += 1;
    }
    assert(ev.take(events@.len() as int) =~= ev);
    out
}

/// Render the Markdown between two headings to HTML, footnote references
/// re-inlined as editor marks with fresh ids, trimmed.
pub fn render_markdown_html(md: &str, defs: &Vec<(Vec<char>, Vec<char>)>) -> (r: String)
    ensures
        exists|ids: Seq<Seq<char>>|
            #![trigger ids.len()]
            ids.len() == md_events(md@).len() && r@ == trim(
                rendered_markdown(md@, event_pieces(md_events(md@), def_views(defs@), ids)),
            ),
{
    // The importer's parser extensions: tables, strikethrough, footnotes.
    let (tables, strikethrough, footnotes) = (true, true, true);
    let events = parse_md_events(md, tables, strikethrough, footnotes);
    let mut ids: Vec<String> = Vec::new();
    let mut i: usize = 0;
    while i < events.len()
        invariant
            i <= events@.len(),
            ids@.len() == i,
        decreases events@.len() - i,
    {
        ids.push(new_id());
        i += 1;
    }
    let pieces = pieces_for(&events, defs, &ids);
    let html = render_md_pieces(md, tables, strikethrough, footnotes, &pieces);
    let t = crate::text::trim_str(html.as_str());
    assert(string_views(ids@).len() == md_events(md@).len());
    string_of(&t)
}

/// A stretch of the file under one heading.
#[derive(Debug, Clone)]
pub struct Section {
    pub level: u8,
    pub title: String,
    pub body_md: String,
    /// The `Intro` section made for text before the first heading; it
    /// never names the project.
    pub synthetic: bool,
}

/// A section with its texts as characters.
pub struct SectionView {
    pub level: nat,
    pub title: Seq<char>,
    pub body: Seq<char>,
    pub synthetic: bool,
}

/// The view of a section.
pub open spec fn section_view(s: Section) -> SectionView {
    SectionView { level: s.level as nat, title: s.title@, body: s.body_md@, synthetic: s.synthetic }
}

/// The views of a list of sections.
pub open spec fn section_views(v: Seq<Section>) -> Seq<SectionView> {
    v.map_values(|s: Section| section_view(s))
}

/// How many `#` open the text.
pub open spec fn leading_hashes(t: Seq<char>) -> nat
    decreases t.len(),
{
    if t.len() > 0 && t[0] == '#' {
        1 + leading_hashes(t.drop_first())
    } else {
        0
    }
}

/// An ATX heading line: after leading white space, one to six `#`, a
/// space, then the title (trimmed).
pub open spec fn heading_of(line: Seq<char>) -> Option<(nat, Seq<char>)> {
    let t = trim_start(line);
    let h = leading_hashes(t);
    if h == 0 || h > 6 {
        None
    } else {
        let rest = t.skip(h as int);
        if rest.len() > 0 && rest[0] == ' ' {
            Some((h, trim(rest)))
        } else {
            None
        }
    }
}

proof fn lemma_leading_hashes(t: Seq<char>, i: int)
    requires
        0 <= i <= t.len(),
        forall|j: int| 0 <= j < i ==> t[j] == '#',
    ensures
        leading_hashes(t) == i + leading_hashes(t.skip(i)),
    decreases i,
{
    if i > 0 {
        assert(t.drop_first().skip(i - 1) =~= t.skip(i));
        assert forall|j: int| 0 <= j < i - 1 implies t.drop_first()[j] == '#' by {
            assert(t.drop_first()[j] == t[j + 1]);
        }
        lemma_leading_hashes(t.drop_first(), i - 1);
    } else {
        assert(t.skip(0) =~= t);
    }
}

/// Read an ATX heading line.
pub fn parse_heading(line: &Vec<char>) -> (r: Option<(u8, Vec<char>)>)
    ensures
        match r {
            Some(p) => heading_of(line@) == Some((p.0 as nat, p.1@)),
            None => heading_of(line@) is None,
        },
{
    let t = crate::text::trim_start_chars(line);
    let mut h: usize = 0;
    while h < t.len() && t[h] == '#'
        invariant
            h <= t@.len(),
            forall|j: int| 0 <= j < h ==> t@[j] == '#',
        decreases t@.len() - h,
    {
        h += 1;
    }
    proof {
        lemma_leading_hashes(t@, h as int);
        let rest = t@.skip(h as int);
        if h < t.len() {
            assert(rest[0] == t@[h as int]);
        }
        assert(leading_hashes(rest) == 0);
    }
    if h == 0 || h > 6 {
        return None;
    }
    if h < t.len() && t[h] == ' ' {
        let rest = slice_chars(&t, h, t.len());
        assert(rest@ =~= t@.skip(h as int));
        let title = trim_chars(&rest);
        Some((h as u8, title))
    } else {
        None
    }
}

/// A list with an optional last element appended.
pub open spec fn opt_push(done: Seq<SectionView>, cur: Option<SectionView>) -> Seq<SectionView> {
    match cur {
        Some(s) => done.push(s),
        None => done,
    }
}

/// The finished sections and the open one after reading the lines.
pub open spec fn split_state(ls: Seq<Seq<char>>) -> (Seq<SectionView>, Option<SectionView>)
    decreases ls.len(),
{
    if ls.len() == 0 {
        (Seq::empty(), None)
    } else {
        let (done, cur) = split_state(ls.drop_last());
        let line = ls.last();
        match heading_of(line) {
            Some((lvl, title)) => (
                opt_push(done, cur),
                Some(SectionView { level: lvl, title: title, body: Seq::empty(), synthetic: false }),
            ),
            None => match cur {
                Some(s) => (
                    done,
                    Some(
                        SectionView {
                            level: s.level,
                            title: s.title,
                            body: s.body + line + seq!['\n'],
                            synthetic: s.synthetic,
                        },
                    ),
                ),
                None => (
                    done,
                    Some(
                        SectionView {
                            level: 1,
                            title: "Intro"@,
                            body: line + seq!['\n'],
                            synthetic: true,
                        },
                    ),
                ),
            },
        }
    }
}

/// The sections of a text's lines.
pub open spec fn sections_of(ls: Seq<Seq<char>>) -> Seq<SectionView> {
    opt_push(split_state(ls).0, split_state(ls).1)
}

/// Split Markdown text at its ATX headings.
pub fn split_by_headings(body: &Vec<char>) -> (out: Vec<Section>)
    ensures
        section_views(out@) == sections_of(lines(body@)),
{
    let ls = lines_exec(body);
    let mut done: Vec<Section> = Vec::new();
    let mut cur: Option<Section> = None;
    let mut i: usize = 0;
    while i < ls.len()
        invariant
            i <= ls@.len(),
            (section_views(done@), match cur {
                Some(s) => Some(section_view(s)),
                None => None,
            }) == split_state(views(ls@).take(i as int)),
        decreases ls@.len() - i,
    {
        let line = &ls[i];
        proof {
            assert(views(ls@).take(i + 1).drop_last() =~= views(ls@).take(i as int));
            assert(views(ls@).take(i + 1).last() == line@);
        }
        match parse_heading(line) {
            Some((level, title)) => {
                let ghost d0 = section_views(done@);
                let ghost c0 = cur;
                match cur {
                    Some(s) => {
                        done.push(s);
                        assert(section_views(done@) =~= d0.push(section_view(s)));
                    },
                    None => {},
                }
                let st = string_of(&title);
                let ns = Section { level, title: st, body_md: String::new(), synthetic: false };
                assert(section_view(ns).body =~= Seq::<char>::empty());
                cur = Some(ns);
            },
            None => {
                match cur {
                    Some(s) => {
                        let ghost sv = section_view(s);
                        let mut b = s.body_md;
                        let ls_line = string_of(line);
                        b.append(ls_line.as_str());
                        crate::text::push_char(&mut b, '\n');
                        assert(b@ =~= sv.body + line@ + seq!['\n']);
                        cur = Some(Section { level: s.level, title: s.title, body_md: b, synthetic: s.synthetic });
                    },
                    None => {
                        let mut b = string_of(line);
                        crate::text::push_char(&mut b, '\n');
                        assert(b@ =~= line@ + seq!['\n']);
                        cur = Some(Section { level: 1, title: String::from_str("Intro"), body_md: b, synthetic: true });
                    },
                }
            },
        }
        i += 1;
    }
    assert(views(ls@).take(ls@.len() as int) =~= views(ls@));
    let ghost d0 = section_views(done@);
    match cur {
        Some(s) => {
            done.push(s);
            assert(section_views(done@) =~= d0.push(section_view(s)));
        },
        None => {},
    }
    done
}

/// The imported tree of a node, with its texts as characters.
pub struct NodeView {
    pub title: Seq<char>,
    pub html: Seq<char>,
    pub children: Seq<NodeView>,
}

/// The view of a node.
pub open spec fn node_view(n: ImportNode) -> NodeView
    decreases n,
{
    NodeView { title: n.title@, html: n.content_html@, children: nodes_view(n.children@) }
}

/// The views of a list of nodes.
pub open spec fn nodes_view(s: Seq<ImportNode>) -> Seq<NodeView>
    decreases s,
{
    if s.len() == 0 {
        Seq::empty()
    } else {
        nodes_view(s.drop_last()).push(node_view(s.last()))
    }
}

/// The first position from `j` on (before `to`) whose level is at most
/// `lvl`, or `to`: where the subtree of a section of level `lvl` ends.
pub open spec fn scan_end(secs: Seq<SectionView>, lvl: nat, j: int, to: int) -> int
    decreases to - j,
{
    if j >= to {
        to
    } else if secs[j].level <= lvl {
        j
    } else {
        scan_end(secs, lvl, j + 1, to)
    }
}

pub proof fn lemma_scan_end(secs: Seq<SectionView>, lvl: nat, j: int, to: int)
    requires
        j <= to,
    ensures
        j <= scan_end(secs, lvl, j, to) <= to,
        forall|t: int| j <= t < scan_end(secs, lvl, j, to) ==> secs[t].level > lvl,
        scan_end(secs, lvl, j, to) < to ==> secs[scan_end(secs, lvl, j, to)].level <= lvl,
    decreases to - j,
{
    if j < to && secs[j].level > lvl {
        lemma_scan_end(secs, lvl, j + 1, to);
    }
}

/// The sections `from..to` as a forest: each section takes as children the
/// following sections up to the next one of its level or a smaller one.
pub open spec fn forest(secs: Seq<SectionView>, htmls: Seq<Seq<char>>, from: int, to: int) -> Seq<
    NodeView,
>
    decreases to - from,
{
    if from >= to {
        Seq::empty()
    } else {
        let k = scan_end(secs, secs[from].level, from + 1, to);
        proof {
            lemma_scan_end(secs, secs[from].level, from + 1, to);
        }
        seq![
            NodeView {
                title: secs[from].title,
                html: htmls[from],
                children: forest(secs, htmls, from + 1, k),
            },
        ] + forest(secs, htmls, k, to)
    }
}

/// Where the subtree of section `from` ends.
fn subtree_end(secs: &Vec<Section>, from: usize, to: usize) -> (k: usize)
    requires
        from < to <= secs@.len(),
    ensures
        k == scan_end(section_views(secs@), secs@[from as int].level as nat, from + 1, to as int),
{
    let lvl = secs[from].level;
    let mut j = from + 1;
    while j < to && secs[j].level > lvl
        invariant
            from < j <= to <= secs@.len(),
            lvl == secs@[from as int].level,
            scan_end(section_views(secs@), lvl as nat, from + 1, to as int) == scan_end(
                section_views(secs@),
                lvl as nat,
                j as int,
                to as int,
            ),
        decreases to - j,
    {
        assert(section_views(secs@)[j as int].level == secs@[j as int].level);
        j += 1;
    }
    if j < to {
        assert(section_views(secs@)[j as int].level == secs@[j as int].level);
    }
    j
}

/// Build the forest of the sections `from..to`.
pub(crate) fn build_forest(secs: &Vec<Section>, htmls: &Vec<String>, from: usize, to: usize) -> (out: Vec<
    ImportNode,
>)
    requires
        from <= to <= secs@.len(),
        htmls@.len() == secs@.len(),
    ensures
        nodes_view(out@) == forest(section_views(secs@), string_views(htmls@), from as int, to as int),
    decreases to - from,
{
    let ghost sv = section_views(secs@);
    let ghost hv = string_views(htmls@);
    let mut out: Vec<ImportNode> = Vec::new();
    let mut i = from;
    assert(nodes_view(out@) + forest(sv, hv, i as int, to as int) =~= forest(
        sv,
        hv,
        from as int,
        to as int,
    ));
    while i < to
        invariant
            from <= i <= to <= secs@.len(),
            htmls@.len() == secs@.len(),
            sv == section_views(secs@),
            hv == string_views(htmls@),
            nodes_view(out@) + forest(sv, hv, i as int, to as int) == forest(
                sv,
                hv,
                from as int,
                to as int,
            ),
        decreases to - i,
    {
        let k = subtree_end(secs, i, to);
        proof {
            lemma_scan_end(sv, sv[i as int].level, i + 1, to as int);
        }
        let children = build_forest(secs, htmls, i + 1, k);
        let node = ImportNode {
            title: secs[i].title.clone(),
            content_html: htmls[i].clone(),
            children,
        };
        let ghost before = out@;
        out.push(node);
        proof {
            assert(out@.drop_last() =~= before);
            assert(node_view(node) == NodeView {
                title: sv[i as int].title,
                html: hv[i as int],
                children: forest(sv, hv, i + 1, k as int),
            });
            assert(nodes_view(out@) == nodes_view(before).push(node_view(node)));
            assert(nodes_view(out@) + forest(sv, hv, k as int, to as int) =~= nodes_view(before)
                + forest(sv, hv, i as int, to as int));
        }
        i = k;
    }
    assert(nodes_view(out@) + forest(sv, hv, i as int, to as int) =~= nodes_view(out@));
    out
}

/// How many sections have level one.
pub open spec fn h1_count(secs: Seq<SectionView>) -> nat
    decreases secs.len(),
{
    if secs.len() == 0 {
        0
    } else {
        h1_count(secs.drop_last()) + if secs.last().level == 1 {
            1nat
        } else {
            0nat
        }
    }
}

/// The first section is dropped from the tree when it serves only as the
/// project title: the one level-one heading, real, opening the file, with
/// nested sections after it.
pub open spec fn skips_first(secs: Seq<SectionView>) -> bool {
    h1_count(secs) == 1 && secs.len() > 1 && secs[0].level == 1 && !secs[0].synthetic && secs[1].level
        > 1
}

/// Build the import tree from the sections and each section's HTML.
pub fn build_tree(sections: &Vec<Section>, htmls: &Vec<String>) -> (out: Vec<ImportNode>)
    requires
        htmls@.len() == sections@.len(),
    ensures
        nodes_view(out@) == forest(
            section_views(sections@),
            string_views(htmls@),
            if skips_first(section_views(sections@)) {
                1
            } else {
                0
            },
            sections@.len() as int,
        ),
{
    let ghost sv = section_views(sections@);
    let mut h1: usize = 0;
    let mut i: usize = 0;
    while i < sections.len()
        invariant
            i <= sections@.len(),
            sv == section_views(sections@),
            h1 <= i,
            h1 == h1_count(sv.take(i as int)),
        decreases sections@.len() - i,
    {
        assert(sv.take(i + 1).drop_last() =~= sv.take(i as int));
        assert(sv.take(i + 1).last() == section_view(sections@[i as int]));
        if sections[i].level == 1 {
            h1 += 1;
        }
        i += 1;
    }
    assert(sv.take(sections@.len() as int) =~= sv);
    let n = sections.len();
    let skip = h1 == 1 && n > 1 && sections[0].level == 1 && !sections[0].synthetic
        && sections[1].level > 1;
    let start: usize = if skip {
        1
    } else {
        0
    };
    build_forest(sections, htmls, start, n)
}

/// The first real level-one heading's title.
pub open spec fn first_h1(secs: Seq<SectionView>) -> Option<Seq<char>>
    decreases secs.len(),
{
    if secs.len() == 0 {
        None
    } else if secs[0].level == 1 && !secs[0].synthetic {
        Some(secs[0].title)
    } else {
        first_h1(secs.drop_first())
    }
}

/// The title of an import: the front matter's, else the first real H1,
/// else the file name.
pub open spec fn import_title(fm: Option<Seq<char>>, secs: Seq<SectionView>, hint: Seq<char>) -> Seq<char> {
    match fm {
        Some(t) => t,
        None => match first_h1(secs) {
            Some(t) => t,
            None => hint,
        },
    }
}

/// The text an import reads its sections from: after the front matter,
/// leading line breaks dropped.
pub open spec fn import_body(bytes: Seq<u8>) -> Seq<char> {
    strip_start(peeled(utf8_lossy(bytes)).0, Sep::LineBreak)
}

/// The sections of an import.
pub open spec fn import_sections(bytes: Seq<u8>) -> Seq<SectionView> {
    sections_of(lines(import_body(bytes)))
}

/// The HTML one section renders to, given the ids its references got.
pub open spec fn section_html(
    body: Seq<char>,
    defs: Seq<(Seq<char>, Seq<char>)>,
    ids: Seq<Seq<char>>,
) -> Seq<char> {
    trim(rendered_markdown(body, event_pieces(md_events(body), defs, ids)))
}

/// `h` holds one HTML text per section of the import: what the section
/// renders to when its footnote references get the ids `ids[i]`.
pub open spec fn htmls_of_sections(bytes: Seq<u8>, h: Seq<Seq<char>>, ids: Seq<Seq<Seq<char>>>) -> bool {
    &&& h.len() == import_sections(bytes).len()
    &&& ids.len() == h.len()
    &&& forall|i: int|
        0 <= i < h.len() ==> (#[trigger] ids[i]).len() == md_events(import_sections(bytes)[i].body).len()
            && h[i] == section_html(
            import_sections(bytes)[i].body,
            footnote_defs(lines(import_body(bytes))),
            ids[i],
        )
}

/// What a Markdown import yields: the title (front matter, first real
/// level-one heading, or the hint) and the tree of the sections, each
/// section's HTML rendered from its Markdown with fresh footnote ids.
pub open spec fn markdown_import(bytes: Seq<u8>, hint: Seq<char>, t: ImportTree) -> bool {
    &&& t.project_title@ == import_title(peeled(utf8_lossy(bytes)).1, import_sections(bytes), hint)
    &&& exists|h: Seq<Seq<char>>, ids: Seq<Seq<Seq<char>>>|
        #![trigger htmls_of_sections(bytes, h, ids)]
        htmls_of_sections(bytes, h, ids) && nodes_view(t.nodes@) == forest(
            import_sections(bytes),
            h,
            if skips_first(import_sections(bytes)) {
                1
            } else {
                0
            },
            h.len() as int,
        )
}

/// Import a Markdown file. The title comes from the front matter, the
/// first real H1 or the file name; the tree nests sections by heading
/// level. Each section's HTML re-inlines footnotes with fresh random ids,
/// so only its shape is fixed.
pub fn import(bytes: &[u8], filename_hint: &str) -> (r: AppResult<ImportTree>)
    ensures
        r matches Ok(t) && markdown_import(bytes@, filename_hint@, t),
{
    let text = decode_lossy(bytes);
    let tv = chars_of(text.as_str());
    let (after, fm_title) = peel_frontmatter(&tv);
    let body = strip_start_exec_linebreak(&after);
    let defs = scan_footnote_defs(&body);
    let sections = split_by_headings(&body);
    let ghost sv = section_views(sections@);
    let ghost dv = def_views(defs@);
    let ghost mut idss: Seq<Seq<Seq<char>>> = Seq::empty();
    let mut htmls: Vec<String> = Vec::new();
    let mut i: usize = 0;
    while i < sections.len()
        invariant
            i <= sections@.len(),
            sv == section_views(sections@),
            dv == def_views(defs@),
            htmls@.len() == i,
            idss.len() == i,
            forall|j: int|
                0 <= j < i ==> (#[trigger] idss[j]).len() == md_events(sv[j].body).len()
                    && string_views(htmls@)[j] == section_html(sv[j].body, dv, idss[j]),
        decreases sections@.len() - i,
    {
        let h = render_markdown_html(sections[i].body_md.as_str(), &defs);
        let ghost before = htmls@;
        htmls.push(h);
        proof {
            assert(sv[i as int].body == sections@[i as int].body_md@);
            let ids = choose|ids: Seq<Seq<char>>|
                #![trigger ids.len()]
                ids.len() == md_events(sections@[i as int].body_md@).len() && h@ == trim(
                    rendered_markdown(
                        sections@[i as int].body_md@,
                        event_pieces(md_events(sections@[i as int].body_md@), dv, ids),
                    ),
                );
            let old_idss = idss;
            idss = idss.push(ids);
            assert forall|j: int|
                0 <= j < i + 1 implies (#[trigger] idss[j]).len() == md_events(sv[j].body).len()
                && string_views(htmls@)[j] == section_html(sv[j].body, dv, idss[j]) by {
                assert(string_views(htmls@)[j] == htmls@[j]@);
                if j < i {
                    assert(htmls@[j] == before[j]);
                    assert(string_views(before)[j] == before[j]@);
                    assert(idss[j] == old_idss[j]);
                }
            }
        }
        i += 1;
    }
    let nodes = build_tree(&sections, &htmls);
    let title = match fm_title {
        Some(t) => string_of(&t),
        None => match first_real_h1(&sections) {
            Some(t) => t,
            None => String::from_str(filename_hint),
        },
    };
    proof {
        assert(tv@ == utf8_lossy(bytes@));
        assert(body@ == import_body(bytes@));
        assert(sv == import_sections(bytes@));
        assert(def_views(defs@) == footnote_defs(lines(import_body(bytes@))));
        let hv = string_views(htmls@);
        assert(hv.len() == sv.len());
        assert(hv.len() == import_sections(bytes@).len());
        assert(nodes_view(nodes@) == forest(
            import_sections(bytes@),
            hv,
            if skips_first(import_sections(bytes@)) {
                1
            } else {
                0
            },
            hv.len() as int,
        ));
        assert(htmls_of_sections(bytes@, hv, idss));
    }
    Ok(ImportTree { project_title: title, nodes })
}

/// Drop leading line feeds and carriage returns.
fn strip_start_exec_linebreak(v: &Vec<char>) -> (r: Vec<char>)
    ensures
        r@ == strip_start(v@, Sep::LineBreak),
{
    crate::segments::strip_start_exec(v, Sep::LineBreak)
}

/// The first real level-one heading's title.
fn first_real_h1(secs: &Vec<Section>) -> (r: Option<String>)
    ensures
        match r {
            Some(t) => first_h1(section_views(secs@)) == Some(t@),
            None => first_h1(section_views(secs@)) is None,
        },
{
    let ghost sv = section_views(secs@);
    let mut i: usize = 0;
    assert(sv.skip(0) =~= sv);
    while i < secs.len()
        invariant
            i <= secs@.len(),
            sv == section_views(secs@),
            first_h1(sv) == first_h1(sv.skip(i as int)),
        decreases secs@.len() - i,
    {
        let ghost rest = sv.skip(i as int);
        assert(rest[0] == section_view(secs@[i as int]));
        assert(rest.drop_first() =~= sv.skip(i + 1));
        if secs[i].level == 1 && !secs[i].synthetic {
            return Some(secs[i].title.clone());
        }
        i += 1;
    }
    None
}

/// A Markdown-only importer.
#[derive(Debug, Default, Clone, Copy)]
pub struct LocalMarkdownImporter;

impl ImportService for LocalMarkdownImporter {
    /// Markdown only.
    fn supported_formats(&self) -> (r: Vec<ImportFormat>)
        ensures
            r@ == seq![ImportFormat::Markdown],
    {
        let mut v: Vec<ImportFormat> = Vec::new();
        v.push(ImportFormat::Markdown);
        v
    }

    /// Import a Markdown payload; DOCX is refused.
    fn import(&self, format: ImportFormat, bytes: &[u8], filename_hint: &str) -> (r: AppResult<
        ImportTree,
    >)
        ensures
            format == ImportFormat::Docx ==> (r matches Err(e) && e == AppError::Unsupported(
                e->Unsupported_0,
            ) && e->Unsupported_0@ == "Markdown importer cannot read DOCX"@),
            format == ImportFormat::Markdown ==> r is Ok,
    {
        match format {
            ImportFormat::Markdown => import(bytes, filename_hint),
            ImportFormat::Docx => Err(
                AppError::Unsupported(String::from_str("Markdown importer cannot read DOCX")),
            ),
        }
    }
}

} // verus!
