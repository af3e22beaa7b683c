//! Print-ready export. No PDF renderer is shipped: the export is one
//! self-contained HTML page with print CSS (a page break before each
//! chapter, conservative margins, a serif default) that the UI hands to the
//! system print dialog, where "Save as PDF" is the usual exit. Images are
//! embedded as base64 data URIs, footnotes become a Notes section per
//! chapter, and the Codex appendix follows when enabled.
use vstd::prelude::*;
use vstd::string::*;

use crate::domain::{CodexEntry, CodexKind, DocNode, Project};
use crate::error::AppResult;
use crate::exporter::config::{separator_text, ExportConfig};
use crate::exporter::footnotes::{assemble, collect_footnotes, footnotes_fit, note_bodies, pieces, strings_view, Footnote};
use crate::exporter::markdown::heading_level;
use crate::exporter::media_bundle::{media_attr, MediaBundle};
use crate::exporter::util::{flatten_in_order, preorder, push_xml_escaped, xml_escaped};
use crate::segments::{decimal, digit, push_decimal, utf8_bytes, utf8_encode};
use crate::text::{char_from_ascii, chars_of, join, join_strings, lex_le, lex_le_exec, lowercase, string_views, to_lowercase, extend_chars, extend_str, find_from, find_from_exec, lemma_find_from_occurs, push_char, slice_chars, string_of, trim, trim_str};

verus! {

/// The character of a 6-bit value in the standard base64 alphabet
/// (`A`–`Z`, `a`–`z`, `0`–`9`, `+`, `/`).
pub open spec fn base64_digit(v: int) -> char {
    if v < 26 {
        (65 + v) as char
    } else if v < 52 {
        (97 + v - 26) as char
    } else if v < 62 {
        (48 + v - 52) as char
    } else if v == 62 {
        '+'
    } else {
        '/'
    }
}

/// Standard base64 with padding: each group of three bytes, read as a
/// 24-bit number, gives four characters of six bits each; a final group
/// of one or two bytes is zero-filled and padded with `=` to four.
pub open spec fn base64_standard(b: Seq<u8>) -> Seq<char>
    decreases b.len(),
{
    if b.len() == 0 {
        Seq::empty()
    } else if b.len() == 1 {
        let n = b[0] as int * 65536;
        seq![base64_digit(n / 262144), base64_digit((n / 4096) % 64), '=', '=']
    } else if b.len() == 2 {
        let n = b[0] as int * 65536 + b[1] as int * 256;
        seq![base64_digit(n / 262144), base64_digit((n / 4096) % 64), base64_digit((n / 64) % 64), '=']
    } else {
        let n = b[0] as int * 65536 + b[1] as int * 256 + b[2] as int;
        seq![
            base64_digit(n / 262144),
            base64_digit((n / 4096) % 64),
            base64_digit((n / 64) % 64),
            base64_digit(n % 64),
        ] + base64_standard(b.skip(3))
    }
}

/// `base64::engine::general_purpose::STANDARD.encode`: the padded standard
/// encoding `base64_standard` states. The crate panics when the encoded
/// length overflows `usize`, which the bound on the input rules out.
#[verifier::external_body]
fn base64_encode(bytes: &[u8]) -> (r: String)
    requires
        bytes@.len() <= usize::MAX / 4,
    ensures
        r@ == base64_standard(bytes@),
{
    base64::Engine::encode(&base64::engine::general_purpose::STANDARD, bytes)
}

/// Every stored asset is small enough to be base64-encoded in memory.
pub open spec fn media_fits(m: Map<Seq<char>, (Seq<char>, Seq<u8>)>) -> bool {
    forall|k: Seq<char>| #[trigger] m.contains_key(k) ==> m[k].1.len() <= usize::MAX / 4
}

/// The `data-media-id` value of a tag, verbatim: the text between the first
/// `data-media-id="` and the next `"`.
pub open spec fn tag_media_id(tag: Seq<char>) -> Option<Seq<char>> {
    match find_from(tag, media_attr(), 0) {
        None => None,
        Some(i) => {
            let start = i + media_attr().len();
            match find_from(tag, seq!['"'], start) {
                None => None,
                Some(e) => Some(tag.subrange(start, e)),
            }
        },
    }
}

/// An `<img …>` tag with its asset embedded: when the tag names a stored
/// asset, `src="data:<mime>;base64,<data>"` is inserted right after `<img`;
/// otherwise the tag is kept.
pub open spec fn embedded_tag(tag: Seq<char>, m: Map<Seq<char>, (Seq<char>, Seq<u8>)>) -> Seq<char> {
    match tag_media_id(tag) {
        Some(id) => if m.contains_key(id) {
            "<img src=\"data:"@ + m[id].0 + ";base64,"@ + base64_standard(m[id].1) + "\""@
                + tag.subrange(4, tag.len() as int)
        } else {
            tag
        },
        None => tag,
    }
}

/// `h[cursor..]` with each `<img …>` tag embedded; an `<img` without a
/// closing `>` ends the scan and the rest is copied.
pub open spec fn embedded_from(h: Seq<char>, cursor: int, m: Map<Seq<char>, (Seq<char>, Seq<u8>)>) -> Seq<char>
    decreases h.len() + 1 - cursor,
{
    if cursor < 0 || cursor > h.len() {
        Seq::empty()
    } else {
        match find_from(h, "<img"@, cursor) {
            None => h.subrange(cursor, h.len() as int),
            Some(s) => match find_from(h, seq!['>'], s) {
                None => h.subrange(cursor, h.len() as int),
                Some(e) => {
                    proof {
                        lemma_find_from_occurs(h, "<img"@, cursor);
                        lemma_find_from_occurs(h, seq!['>'], s);
                    }
                    h.subrange(cursor, s) + embedded_tag(h.subrange(s, e + 1), m) + embedded_from(
                        h,
                        e + 1,
                        m,
                    )
                },
            },
        }
    }
}

/// The chapter HTML with its images embedded; untouched when the bundle is
/// empty or no `data-media-id="` occurs.
pub open spec fn embedded_media(h: Seq<char>, m: Map<Seq<char>, (Seq<char>, Seq<u8>)>) -> Seq<char> {
    if m == Map::<Seq<char>, (Seq<char>, Seq<u8>)>::empty() || !crate::text::contains(h, media_attr()) {
        h
    } else {
        embedded_from(h, 0, m)
    }
}

/// `tag_media_id` on a character vector.
fn tag_media_id_exec(tag: &Vec<char>, needle: &Vec<char>, quote: &Vec<char>) -> (r: Option<Vec<char>>)
    requires
        needle@ == media_attr(),
        quote@ == seq!['"'],
    ensures
        r matches Some(v) ==> tag_media_id(tag@) == Some(v@),
        r is None ==> tag_media_id(tag@) is None,
{
    match find_from_exec(tag, needle, 0) {
        None => None,
        Some(i) => {
            proof {
                lemma_find_from_occurs(tag@, media_attr(), 0);
            }
            let tl = tag.len();
            assert(i + needle@.len() <= tl);
            let start = i + needle.len();
            match find_from_exec(tag, quote, start) {
                None => None,
                Some(e) => {
                    proof {
                        lemma_find_from_occurs(tag@, seq!['"'], start as int);
                    }
                    Some(slice_chars(tag, start, e))
                },
            }
        },
    }
}

/// `embedded_tag` computed: `tag` starts with `<img`.
fn embed_tag(tag: &Vec<char>, media: &MediaBundle, needle: &Vec<char>, quote: &Vec<char>) -> (out: Vec<char>)
    requires
        needle@ == media_attr(),
        quote@ == seq!['"'],
        tag@.len() >= 4,
        media_fits(media@),
    ensures
        out@ == embedded_tag(tag@, media@),
{
    match tag_media_id_exec(tag, needle, quote) {
        None => slice_chars(tag, 0, tag.len()),
        Some(id) => {
            let ids = string_of(&id);
            match media.get(ids.as_str()) {
                None => slice_chars(tag, 0, tag.len()),
                Some((mime, bytes)) => {
                    assert(media@.contains_key(id@));
                    let b64 = base64_encode(bytes);
                    let mut out: Vec<char> = Vec::new();
                    extend_str(&mut out, "<img src=\"data:");
                    extend_str(&mut out, mime);
                    extend_str(&mut out, ";base64,");
                    extend_str(&mut out, b64.as_str());
                    extend_str(&mut out, "\"");
                    let rest = slice_chars(tag, 4, tag.len());
                    extend_chars(&mut out, &rest);
                    assert(out@ =~= embedded_tag(tag@, media@));
                    out
                },
            }
        },
    }
}

/// Embed the assets that `html`'s `<img data-media-id="…">` tags refer to
/// as base64 data URIs, so the printed page shows them wherever the file
/// is moved.
pub fn inline_media(html: &Vec<char>, media: &MediaBundle) -> (out: Vec<char>)
    requires
        media_fits(media@),
    ensures
        out@ == embedded_media(html@, media@),
{
    let needle = chars_of("data-media-id=\"");
    let quote = chars_of("\"");
    let img = chars_of("<img");
    let gt = chars_of(">");
    proof {
        reveal_strlit("data-media-id=\"");
        reveal_strlit("\"");
        reveal_strlit(">");
        reveal_strlit("<img");
        assert(needle@ =~= media_attr());
        assert(quote@ =~= seq!['"']);
        assert(gt@ =~= seq!['>']);
    }
    if media.is_empty() || !crate::text::contains_exec(html, &needle) {
        return slice_chars(html, 0, html.len());
    }
    let mut out: Vec<char> = Vec::new();
    let mut cursor: usize = 0;
    loop
        invariant_except_break
            out@ + embedded_from(html@, cursor as int, media@) == embedded_from(html@, 0, media@),
        invariant
            needle@ == media_attr(),
            quote@ == seq!['"'],
            gt@ == seq!['>'],
            img@ == "<img"@,
            "<img"@ == seq!['<', 'i', 'm', 'g'],
            media_fits(media@),
            cursor <= html@.len(),
        ensures
            out@ == embedded_from(html@, 0, media@),
        decreases html@.len() + 1 - cursor,
    {
        let ghost before = out@;
        match find_from_exec(html, &img, cursor) {
            None => {
                let rest = slice_chars(html, cursor, html.len());
                extend_chars(&mut out, &rest);
                break;
            },
            Some(s) => {
                proof {
                    lemma_find_from_occurs(html@, "<img"@, cursor as int);
                }
                match find_from_exec(html, &gt, s) {
                    None => {
                        let rest = slice_chars(html, cursor, html.len());
                        extend_chars(&mut out, &rest);
                        break;
                    },
                    Some(e) => {
                        proof {
                            lemma_find_from_occurs(html@, seq!['>'], s as int);
                            assert(html@.subrange(e as int, e + 1) == seq!['>']);
                            assert(html@.subrange(e as int, e + 1)[0] == '>');
                            assert(html@[e as int] == '>');
                            assert(html@.subrange(s as int, s + 4) == "<img"@);
                            if e < s + 4 {
                                assert(html@[e as int] == html@.subrange(s as int, s + 4)[e - s]);
                            }
                        }
                        let head = slice_chars(html, cursor, s);
                        extend_chars(&mut out, &head);
                        let tag = slice_chars(html, s, e + 1);
                        let rep = embed_tag(&tag, media, &needle, &quote);
                        extend_chars(&mut out, &rep);
                        assert(out@ + embedded_from(html@, e + 1, media@) =~= before + embedded_from(
                            html@,
                            cursor as int,
                            media@,
                        ));
                        cursor = e + 1;
                    },
                }
            },
        }
    }
    out
}

/// The reference that replaces the `n`-th footnote marker of a chapter.
pub open spec fn fn_ref_text(n: nat) -> Seq<char> {
    "<sup class=\"fn-ref\">"@ + decimal(n) + "</sup>"@
}

/// The references of the first `count` footnotes.
pub open spec fn fn_refs(count: nat) -> Seq<Seq<char>> {
    Seq::new(count, |k: int| fn_ref_text((k + 1) as nat))
}

/// `fn_ref_text` computed.
fn fn_ref(n: u32) -> (r: String)
    ensures
        r@ == fn_ref_text(n as nat),
{
    let mut r = String::from_str("<sup class=\"fn-ref\">");
    push_decimal(&mut r, n as u128);
    r.append("</sup>");
    r
}

/// The list items of the collected footnote bodies, escaped.
pub open spec fn note_items(bodies: Seq<Seq<char>>) -> Seq<char>
    decreases bodies.len(),
{
    if bodies.len() == 0 {
        Seq::empty()
    } else {
        note_items(bodies.drop_last()) + "<li>"@ + xml_escaped(bodies.last()) + "</li>\n"@
    }
}

/// The Notes section that closes a chapter with footnotes.
pub open spec fn notes_section(bodies: Seq<Seq<char>>) -> Seq<char> {
    "<section class=\"notes\"><hr/><ol>\n"@ + note_items(bodies) + "</ol></section>\n"@
}

/// A chapter's HTML: footnote markers replaced by numbered references,
/// images embedded, then the Notes section when there are footnotes.
pub open spec fn chapter_content(h: Seq<char>, m: Map<Seq<char>, (Seq<char>, Seq<u8>)>) -> Seq<char> {
    let ps = pieces(h, 0);
    let bodies = note_bodies(ps);
    embedded_media(assemble(ps, fn_refs(bodies.len())), m) + if bodies.len() > 0 {
        notes_section(bodies)
    } else {
        Seq::<char>::empty()
    }
}

/// One document as a chapter section, headed at `min(depth + 2, 6)`; blank
/// content adds nothing.
pub open spec fn chapter(d: DocNode, depth: int, m: Map<Seq<char>, (Seq<char>, Seq<u8>)>) -> Seq<char> {
    let lv = seq![digit(heading_level(depth))];
    let content = match d.content {
        Some(h) => if trim(h@).len() > 0 {
            chapter_content(h@, m)
        } else {
            Seq::<char>::empty()
        },
        None => Seq::<char>::empty(),
    };
    "<section class=\"chapter\"><h"@ + lv + ">"@ + xml_escaped(d.title@) + "</h"@ + lv + ">\n"@
        + content + "</section>\n"@
}

/// Whether a top-level document occurs among the listed `(depth, index)`
/// pairs.
pub open spec fn roots_before(order: Seq<(int, int)>) -> bool
    decreases order.len(),
{
    if order.len() == 0 {
        false
    } else {
        roots_before(order.drop_last()) || order.last().0 == 0
    }
}

/// The scene separator paragraph.
pub open spec fn separator_par(sep: Seq<char>) -> Seq<char> {
    "<p class=\"scene-separator\">"@ + xml_escaped(sep) + "</p>\n"@
}

/// The chapters of the listed documents; a non-empty separator stands
/// between consecutive top-level documents.
pub open spec fn chapters(
    docs: Seq<DocNode>,
    order: Seq<(int, int)>,
    sep: Seq<char>,
    m: Map<Seq<char>, (Seq<char>, Seq<u8>)>,
) -> Seq<char>
    decreases order.len(),
{
    if order.len() == 0 {
        Seq::empty()
    } else {
        let last = order.last();
        let gap = if last.0 == 0 && roots_before(order.drop_last()) && sep.len() > 0 {
            separator_par(sep)
        } else {
            Seq::<char>::empty()
        };
        chapters(docs, order.drop_last(), sep, m) + gap + chapter(docs[last.1], last.0, m)
    }
}

/// The entries of the table of contents, indented two spaces per level.
pub open spec fn toc_items(docs: Seq<DocNode>, order: Seq<(int, int)>) -> Seq<char>
    decreases order.len(),
{
    if order.len() == 0 {
        Seq::empty()
    } else {
        let last = order.last();
        toc_items(docs, order.drop_last()) + Seq::new((2 * last.0) as nat, |i: int| ' ') + "<li>"@
            + xml_escaped(docs[last.1].title@) + "</li>\n"@
    }
}

/// The table of contents of the binder, in reading order.
pub open spec fn toc(docs: Seq<DocNode>) -> Seq<char> {
    "<nav class=\"toc\"><h2>Contents</h2><ol>\n"@ + toc_items(docs, preorder(docs))
        + "</ol></nav>\n"@
}

/// The character views of the bodies of some footnotes.
pub open spec fn footnote_bodies(notes: Seq<Footnote>) -> Seq<Seq<char>> {
    notes.map_values(|f: Footnote| f.content@)
}

/// Append the Notes section of `notes`.
fn push_notes(out: &mut String, notes: &Vec<Footnote>)
    ensures
        final(out)@ == old(out)@ + notes_section(footnote_bodies(notes@)),
{
    out.append("<section class=\"notes\"><hr/><ol>\n");
    let ghost head = out@;
    let mut i: usize = 0;
    while i < notes.len()
        invariant
            i <= notes@.len(),
            out@ == head + note_items(footnote_bodies(notes@).take(i as int)),
        decreases notes@.len() - i,
    {
        out.append("<li>");
        push_xml_escaped(out, notes[i].content.as_str());
        out.append("</li>\n");
        proof {
            let b = footnote_bodies(notes@);
            assert(b.take(i + 1).drop_last() =~= b.take(i as int));
            assert(b.take(i + 1).last() == notes@[i as int].content@);
        }
        i += 1;
    }
    assert(footnote_bodies(notes@).take(notes@.len() as int) =~= footnote_bodies(notes@));
    out.append("</ol></section>\n");
}

/// Append the processed HTML of one chapter.
fn push_chapter_content(out: &mut String, h: &str, media: &MediaBundle)
    requires
        footnotes_fit(h@),
        media_fits(media@),
    ensures
        final(out)@ == old(out)@ + chapter_content(h@, media@),
{
    let mk = |n: u32| -> (s: String)
        ensures
            s@ == fn_ref_text(n as nat),
        { fn_ref(n) };
    let (with_refs, notes) = collect_footnotes(h, mk);
    let ghost ps = pieces(h@, 0);
    let ghost bodies = note_bodies(ps);
    proof {
        let refs = choose|refs: Seq<String>|
            #![trigger assemble(pieces(h@, 0), strings_view(refs))]
            refs.len() == notes@.len() && (forall|k: int|
                #![trigger refs[k]]
                0 <= k < refs.len() ==> mk.ensures(((k + 1) as u32,), refs[k]))
                && with_refs@ == assemble(pieces(h@, 0), strings_view(refs));
        assert forall|k: int| 0 <= k < refs.len() implies strings_view(refs)[k] == fn_refs(
            bodies.len(),
        )[k] by {
            assert(mk.ensures(((k + 1) as u32,), refs[k]));
            assert(notes@[k].number == k + 1);
            assert(((k + 1) as u32) as nat == (k + 1) as nat);
        }
        assert(strings_view(refs) =~= fn_refs(bodies.len()));
    }
    let wr = chars_of(with_refs.as_str());
    let em = inline_media(&wr, media);
    let ems = string_of(&em);
    out.append(ems.as_str());
    if notes.len() > 0 {
        push_notes(out, &notes);
    }
    proof {
        assert(footnote_bodies(notes@) =~= bodies);
    }
}

/// The sort key of a codex entry: its lower-cased name.
pub open spec fn name_key(e: CodexEntry) -> Seq<char> {
    lowercase(e.name@)
}

/// Indices `i < k` of the entries of `kind`, in input order.
pub open spec fn kind_upto(codex: Seq<CodexEntry>, kind: CodexKind, k: int) -> Seq<int>
    decreases k,
{
    if k <= 0 {
        Seq::empty()
    } else if codex[k - 1].kind == kind {
        kind_upto(codex, kind, k - 1).push(k - 1)
    } else {
        kind_upto(codex, kind, k - 1)
    }
}

/// Insertion step of a stable sort by `name_key`.
pub open spec fn insert_by_name(codex: Seq<CodexEntry>, sorted: Seq<int>, x: int) -> Seq<int>
    decreases sorted.len(),
{
    if sorted.len() == 0 {
        seq![x]
    } else if lex_le(name_key(codex[sorted.last()]), name_key(codex[x])) {
        sorted.push(x)
    } else {
        insert_by_name(codex, sorted.drop_last(), x).push(sorted.last())
    }
}

/// Stable sort of entry indices by lower-cased name.
pub open spec fn sort_by_name(codex: Seq<CodexEntry>, s: Seq<int>) -> Seq<int>
    decreases s.len(),
{
    if s.len() == 0 {
        Seq::empty()
    } else {
        insert_by_name(codex, sort_by_name(codex, s.drop_last()), s.last())
    }
}

/// Heading of a codex kind's section.
pub open spec fn section_name(kind: CodexKind) -> Seq<char> {
    match kind {
        CodexKind::Character => "Characters"@,
        CodexKind::Place => "Places"@,
        CodexKind::Object => "Objects"@,
        CodexKind::Note => "Notes"@,
    }
}

/// One codex entry: name, tags when there are any, body when not blank
/// (the body is HTML and is copied as is).
pub open spec fn entry_html(e: CodexEntry) -> Seq<char> {
    let tags = if e.tags@.len() > 0 {
        "<p class=\"tags\"><em>"@ + xml_escaped(join(string_views(e.tags@), ", "@)) + "</em></p>\n"@
    } else {
        Seq::<char>::empty()
    };
    let body = match e.body {
        Some(b) => if trim(b@).len() > 0 {
            b@
        } else {
            Seq::<char>::empty()
        },
        None => Seq::<char>::empty(),
    };
    "<h4>"@ + xml_escaped(e.name@) + "</h4>\n"@ + tags + body
}

/// The listed entries, in that order.
pub open spec fn entries_html(codex: Seq<CodexEntry>, idx: Seq<int>) -> Seq<char>
    decreases idx.len(),
{
    if idx.len() == 0 {
        Seq::empty()
    } else {
        entries_html(codex, idx.drop_last()) + entry_html(codex[idx.last()])
    }
}

/// The section of one kind, entries sorted by name; nothing when the
/// kind has no entry.
pub open spec fn kind_section(codex: Seq<CodexEntry>, kind: CodexKind) -> Seq<char> {
    let raw = kind_upto(codex, kind, codex.len() as int);
    if raw.len() == 0 {
        Seq::empty()
    } else {
        "<h3>"@ + xml_escaped(section_name(kind)) + "</h3>\n"@ + entries_html(
            codex,
            sort_by_name(codex, raw),
        )
    }
}

/// The Codex appendix: characters, places, objects, notes.
pub open spec fn codex_appendix(codex: Seq<CodexEntry>) -> Seq<char> {
    "<section class=\"codex\"><h2>Codex</h2>\n"@ + kind_section(codex, CodexKind::Character)
        + kind_section(codex, CodexKind::Place) + kind_section(codex, CodexKind::Object)
        + kind_section(codex, CodexKind::Note) + "</section>\n"@
}

/// Equality of codex kinds.
pub(crate) fn same_kind(a: CodexKind, b: CodexKind) -> (r: bool)
    ensures
        r == (a == b),
{
    match (a, b) {
        (CodexKind::Character, CodexKind::Character) => true,
        (CodexKind::Place, CodexKind::Place) => true,
        (CodexKind::Object, CodexKind::Object) => true,
        (CodexKind::Note, CodexKind::Note) => true,
        _ => false,
    }
}

/// Insertion step of the name sort, on a vector of indices; `keys[i]` is
/// the lower-cased name of entry `i`.
fn insert_by_name_exec(codex: &[CodexEntry], keys: &Vec<Vec<char>>, sorted: &mut Vec<usize>, x: usize)
    requires
        x < codex@.len(),
        keys@.len() == codex@.len(),
        forall|i: int| 0 <= i < keys@.len() ==> #[trigger] keys@[i]@ == name_key(codex@[i]),
        forall|i: int| 0 <= i < old(sorted)@.len() ==> old(sorted)@[i] < codex@.len(),
    ensures
        final(sorted)@.map_values(|v: usize| v as int) == insert_by_name(
            codex@,
            old(sorted)@.map_values(|v: usize| v as int),
            x as int,
        ),
        forall|i: int| 0 <= i < final(sorted)@.len() ==> final(sorted)@[i] < codex@.len(),
    decreases old(sorted)@.len(),
{
    let ghost s0 = sorted@.map_values(|v: usize| v as int);
    if sorted.len() == 0 {
        sorted.push(x);
        assert(sorted@.map_values(|v: usize| v as int) =~= seq![x as int]);
    } else {
        let last = sorted[sorted.len() - 1];
        assert(keys@[last as int]@ == name_key(codex@[last as int]));
        assert(keys@[x as int]@ == name_key(codex@[x as int]));
        if lex_le_exec(&keys[last], &keys[x]) {
            sorted.push(x);
            assert(sorted@.map_values(|v: usize| v as int) =~= s0.push(x as int));
        } else {
            sorted.pop();
            assert(sorted@.map_values(|v: usize| v as int) =~= s0.drop_last());
            insert_by_name_exec(codex, keys, sorted, x);
            let ghost mid = sorted@.map_values(|v: usize| v as int);
            sorted.push(last);
            assert(sorted@.map_values(|v: usize| v as int) =~= mid.push(last as int));
        }
    }
}

/// Append one codex entry.
fn push_entry(out: &mut String, e: &CodexEntry)
    ensures
        final(out)@ == old(out)@ + entry_html(*e),
{
    out.append("<h4>");
    push_xml_escaped(out, e.name.as_str());
    out.append("</h4>\n");
    if e.tags.len() > 0 {
        out.append("<p class=\"tags\"><em>");
        let joined = join_strings(&e.tags, ", ");
        push_xml_escaped(out, joined.as_str());
        out.append("</em></p>\n");
    }
    match &e.body {
        Some(b) => {
            if trim_str(b.as_str()).len() > 0 {
                out.append(b.as_str());
            }
        },
        None => {},
    }
}

/// The entries of `kind`, sorted by lower-cased name (stable); `keys[i]`
/// is the lower-cased name of entry `i`.
pub(crate) fn sorted_kind(codex: &[CodexEntry], keys: &Vec<Vec<char>>, kind: CodexKind) -> (sorted: Vec<usize>)
    requires
        keys@.len() == codex@.len(),
        forall|i: int| 0 <= i < keys@.len() ==> #[trigger] keys@[i]@ == name_key(codex@[i]),
    ensures
        sorted@.map_values(|v: usize| v as int) == sort_by_name(codex@, kind_upto(codex@, kind, codex@.len() as int)),
        forall|i: int| 0 <= i < sorted@.len() ==> sorted@[i] < codex@.len(),
        (sorted@.len() == 0) == (kind_upto(codex@, kind, codex@.len() as int).len() == 0),
{
    let mut raw: Vec<usize> = Vec::new();
    let mut k: usize = 0;
    while k < codex.len()
        invariant
            k <= codex@.len(),
            raw@.map_values(|v: usize| v as int) == kind_upto(codex@, kind, k as int),
            forall|i: int| 0 <= i < raw@.len() ==> raw@[i] < k,
        decreases codex@.len() - k,
    {
        let ghost r0 = raw@.map_values(|v: usize| v as int);
        if same_kind(codex[k].kind, kind) {
            raw.push(k);
            assert(raw@.map_values(|v: usize| v as int) =~= r0.push(k as int));
        }
        k += 1;
    }
    let ghost rv = raw@.map_values(|v: usize| v as int);
    let mut sorted: Vec<usize> = Vec::new();
    let mut j: usize = 0;
    while j < raw.len()
        invariant
            j <= raw.len(),
            rv == raw@.map_values(|v: usize| v as int),
            keys@.len() == codex@.len(),
            forall|i: int| 0 <= i < keys@.len() ==> #[trigger] keys@[i]@ == name_key(codex@[i]),
            forall|i: int| 0 <= i < raw@.len() ==> raw@[i] < codex@.len(),
            forall|i: int| 0 <= i < sorted@.len() ==> sorted@[i] < codex@.len(),
            sorted@.map_values(|v: usize| v as int) == sort_by_name(codex@, rv.take(j as int)),
            sorted@.len() == j,
        decreases raw.len() - j,
    {
        assert(rv.take(j + 1).drop_last() =~= rv.take(j as int));
        assert(rv.take(j + 1).last() == raw@[j as int] as int);
        insert_by_name_exec(codex, keys, &mut sorted, raw[j]);
        proof {
            lemma_insert_by_name_len(codex@, rv.take(j as int), raw@[j as int] as int);
        }
        j += 1;
    }
    assert(rv.take(raw.len() as int) =~= rv);
    sorted
}

/// Inserting adds one element.
proof fn lemma_insert_by_name_len(codex: Seq<CodexEntry>, s: Seq<int>, x: int)
    ensures
        insert_by_name(codex, sort_by_name(codex, s), x).len() == sort_by_name(codex, s).len() + 1,
{
    lemma_insert_len(codex, sort_by_name(codex, s), x);
}

/// Inserting adds one element.
proof fn lemma_insert_len(codex: Seq<CodexEntry>, sorted: Seq<int>, x: int)
    ensures
        insert_by_name(codex, sorted, x).len() == sorted.len() + 1,
    decreases sorted.len(),
{
    if sorted.len() > 0 {
        lemma_insert_len(codex, sorted.drop_last(), x);
    }
}

/// The lower-cased name of every entry.
pub(crate) fn name_keys(codex: &[CodexEntry]) -> (keys: Vec<Vec<char>>)
    ensures
        keys@.len() == codex@.len(),
        forall|i: int| 0 <= i < keys@.len() ==> #[trigger] keys@[i]@ == name_key(codex@[i]),
{
    let mut keys: Vec<Vec<char>> = Vec::new();
    let mut k: usize = 0;
    while k < codex.len()
        invariant
            k <= codex@.len(),
            keys@.len() == k,
            forall|i: int| 0 <= i < k ==> #[trigger] keys@[i]@ == name_key(codex@[i]),
        decreases codex@.len() - k,
    {
        let low = to_lowercase(codex[k].name.as_str());
        keys.push(chars_of(low.as_str()));
        k += 1;
    }
    keys
}

/// Append the section of one codex kind.
fn push_kind_section(out: &mut String, codex: &[CodexEntry], keys: &Vec<Vec<char>>, kind: CodexKind)
    requires
        keys@.len() == codex@.len(),
        forall|i: int| 0 <= i < keys@.len() ==> #[trigger] keys@[i]@ == name_key(codex@[i]),
    ensures
        final(out)@ == old(out)@ + kind_section(codex@, kind),
{
    let sorted = sorted_kind(codex, keys, kind);
    if sorted.len() == 0 {
        assert(out@ =~= old(out)@ + kind_section(codex@, kind));
        return;
    }
    out.append("<h3>");
    let name = match kind {
        CodexKind::Character => "Characters",
        CodexKind::Place => "Places",
        CodexKind::Object => "Objects",
        CodexKind::Note => "Notes",
    };
    push_xml_escaped(out, name);
    out.append("</h3>\n");
    let ghost head = out@;
    let ghost sv = sorted@.map_values(|v: usize| v as int);
    let mut i: usize = 0;
    while i < sorted.len()
        invariant
            i <= sorted@.len(),
            sv == sorted@.map_values(|v: usize| v as int),
            forall|t: int| 0 <= t < sorted@.len() ==> sorted@[t] < codex@.len(),
            out@ == head + entries_html(codex@, sv.take(i as int)),
        decreases sorted@.len() - i,
    {
        push_entry(out, &codex[sorted[i]]);
        assert(sv.take(i + 1).drop_last() =~= sv.take(i as int));
        assert(sv.take(i + 1).last() == sorted@[i as int] as int);
        i += 1;
    }
    assert(sv.take(sorted@.len() as int) =~= sv);
}

/// Append the Codex appendix.
fn push_codex(out: &mut String, codex: &[CodexEntry])
    ensures
        final(out)@ == old(out)@ + codex_appendix(codex@),
{
    let keys = name_keys(codex);
    out.append("<section class=\"codex\"><h2>Codex</h2>\n");
    push_kind_section(out, codex, &keys, CodexKind::Character);
    push_kind_section(out, codex, &keys, CodexKind::Place);
    push_kind_section(out, codex, &keys, CodexKind::Object);
    push_kind_section(out, codex, &keys, CodexKind::Note);
    out.append("</section>\n");
}

/// The print stylesheet of the exported page.
pub const PRINT_CSS: &'static str = "
@page { size: A4; margin: 24mm 20mm; }
body { font-family: 'Lora', Georgia, 'Times New Roman', serif; font-size: 12pt; line-height: 1.55; color: #111; max-width: 720px; margin: 0 auto; padding: 24px; }
h1 { font-size: 28pt; text-align: center; margin: 0 0 0.5em; }
h2 { font-size: 18pt; margin: 1em 0 0.4em; }
h3 { font-size: 14pt; margin: 1em 0 0.4em; }
p { margin: 0 0 0.8em; text-align: justify; }
.title-page { page-break-after: always; text-align: center; padding-top: 30vh; }
.title-page .author { font-size: 14pt; margin-top: 1em; opacity: 0.8; }
.toc { page-break-after: always; }
.toc ol { list-style: none; padding: 0; }
.toc li { padding: 0.15em 0; border-bottom: 1px dotted #ccc; }
.chapter { page-break-before: always; }
.notes { font-size: 10pt; margin-top: 2em; color: #444; }
.notes hr { border: 0; border-top: 1px solid #999; width: 30%; margin: 1em 0; }
.notes ol { padding-left: 1.4em; }
.codex { page-break-before: always; }
sup.fn-ref { font-size: 0.7em; color: #1d4ed8; }
img { max-width: 100%; height: auto; }
@media print {
  body { padding: 0; }
}
";

/// The end of the page: a script that opens the print dialog once the page
/// has loaded (a no-op outside a browser), then the closing tags.
pub const PAGE_TAIL: &'static str = "
<script>
// Auto-trigger the system print dialog when the document loads in a
// browser/webview. The user can pick \"Save as PDF\" from there. Safe to
// no-op outside a browser context.
window.addEventListener('load', () => {
  setTimeout(() => { try { window.print(); } catch (_e) {} }, 250);
});
</script>
</body>
</html>
";

/// A text trimmed, or `None` when it is absent or blank.
pub open spec fn trimmed_nonempty(o: Option<String>) -> Option<Seq<char>> {
    match o {
        Some(s) => if trim(s@).len() > 0 {
            Some(trim(s@))
        } else {
            None
        },
        None => None,
    }
}

/// The title shown: the configured override when not blank, else the
/// project title.
pub open spec fn display_title(p: Project, c: ExportConfig) -> Seq<char> {
    match trimmed_nonempty(c.title_override) {
        Some(t) => t,
        None => p.title@,
    }
}

/// The author shown: the configured author when not blank, else the
/// `author` string of the project metadata, if any.
pub open spec fn display_author(p: Project, c: ExportConfig) -> Option<Seq<char>> {
    match trimmed_nonempty(c.author) {
        Some(a) => Some(a),
        None => match p.metadata {
            Some(m) => match m.author {
                Some(a) => Some(a@),
                None => None,
            },
            None => None,
        },
    }
}

/// The title page.
pub open spec fn title_page(title: Seq<char>, author: Option<Seq<char>>) -> Seq<char> {
    let by = match author {
        Some(a) => "<p class=\"author\">"@ + xml_escaped(a) + "</p>"@,
        None => Seq::<char>::empty(),
    };
    "<section class=\"title-page\"><h1>"@ + xml_escaped(title) + "</h1>"@ + by + "</section>\n"@
}

/// The standalone page around `body`.
pub open spec fn page(title: Seq<char>, author: Option<Seq<char>>, body: Seq<char>) -> Seq<char> {
    let meta = match author {
        Some(a) => "<meta name=\"author\" content=\""@ + xml_escaped(a) + "\">\n"@,
        None => Seq::<char>::empty(),
    };
    "<!DOCTYPE html>\n<html lang=\"en\">\n<head>\n<meta charset=\"utf-8\">\n<title>"@ + xml_escaped(
        title,
    ) + "</title>\n"@ + meta + "<style>\n"@ + PRINT_CSS@ + "\n</style>\n</head>\n<body>\n"@ + body
        + PAGE_TAIL@
}

/// The body of the exported page: title page and contents when enabled,
/// the chapters, and the Codex appendix when enabled and not empty.
pub open spec fn pdf_body(
    p: Project,
    docs: Seq<DocNode>,
    codex: Seq<CodexEntry>,
    m: Map<Seq<char>, (Seq<char>, Seq<u8>)>,
    c: ExportConfig,
) -> Seq<char> {
    (if c.include_title_page {
        title_page(display_title(p, c), display_author(p, c))
    } else {
        Seq::<char>::empty()
    }) + (if c.include_toc {
        toc(docs)
    } else {
        Seq::<char>::empty()
    }) + chapters(docs, preorder(docs), separator_text(c.scene_separator), m) + (if c.include_codex
        && codex.len() > 0 {
        codex_appendix(codex)
    } else {
        Seq::<char>::empty()
    })
}

/// The whole exported page.
pub open spec fn pdf_html(
    p: Project,
    docs: Seq<DocNode>,
    codex: Seq<CodexEntry>,
    m: Map<Seq<char>, (Seq<char>, Seq<u8>)>,
    c: ExportConfig,
) -> Seq<char> {
    page(display_title(p, c), display_author(p, c), pdf_body(p, docs, codex, m, c))
}

/// `trimmed_nonempty` computed.
pub(crate) fn trimmed_nonempty_exec(o: &Option<String>) -> (r: Option<String>)
    ensures
        r matches Some(s) ==> trimmed_nonempty(*o) == Some(s@),
        r is None ==> trimmed_nonempty(*o) is None,
{
    match o {
        Some(s) => {
            let t = trim_str(s.as_str());
            if t.len() > 0 {
                Some(string_of(&t))
            } else {
                None
            }
        },
        None => None,
    }
}

/// Append the title page.
fn push_title_page(out: &mut String, title: &str, author: &Option<String>)
    ensures
        final(out)@ == old(out)@ + title_page(title@, opt_view(*author)),
{
    out.append("<section class=\"title-page\"><h1>");
    push_xml_escaped(out, title);
    out.append("</h1>");
    match author {
        Some(a) => {
            out.append("<p class=\"author\">");
            push_xml_escaped(out, a.as_str());
            out.append("</p>");
        },
        None => {},
    }
    out.append("</section>\n");
}

/// Append the table of contents.
fn push_toc(out: &mut String, documents: &[DocNode])
    requires
        documents@.len() < usize::MAX,
    ensures
        final(out)@ == old(out)@ + toc(documents@),
{
    out.append("<nav class=\"toc\"><h2>Contents</h2><ol>\n");
    let ghost head = out@;
    let ordered = flatten_in_order(documents);
    let ghost order = preorder(documents@);
    let mut i: usize = 0;
    while i < ordered.len()
        invariant
            i <= ordered@.len(),
            ordered@.len() == order.len(),
            order == preorder(documents@),
            forall|k: int|
                #![trigger ordered@[k]]
                0 <= k < ordered@.len() ==> ordered@[k].0 as int == order[k].0 && 0 <= order[k].1
                    < documents@.len() && *ordered@[k].1 == documents@[order[k].1],
            out@ == head + toc_items(documents@, order.take(i as int)),
        decreases ordered@.len() - i,
    {
        let (depth, doc) = ordered[i];
        let ghost before = out@;
        let mut h: usize = 0;
        while h < depth
            invariant
                h <= depth,
                out@ == before + Seq::new((2 * h) as nat, |j: int| ' '),
            decreases depth - h,
        {
            out.append("  ");
            proof {
                reveal_strlit("  ");
            }
            assert(out@ =~= before + Seq::new((2 * (h + 1)) as nat, |j: int| ' '));
            h += 1;
        }
        out.append("<li>");
        push_xml_escaped(out, doc.title.as_str());
        out.append("</li>\n");
        proof {
            assert(ordered@[i as int].0 as int == order[i as int].0);
            assert(order.take(i + 1).drop_last() =~= order.take(i as int));
            assert(order.take(i + 1).last() == order[i as int]);
            assert(out@ =~= head + toc_items(documents@, order.take(i + 1)));
        }
        i += 1;
    }
    assert(order.take(ordered@.len() as int) =~= order);
    out.append("</ol></nav>\n");
}

/// Append one chapter section.
fn push_chapter(out: &mut String, doc: &DocNode, depth: usize, media: &MediaBundle)
    requires
        media_fits(media@),
        doc.content matches Some(h) ==> footnotes_fit(h@),
    ensures
        final(out)@ == old(out)@ + chapter(*doc, depth as int, media@),
{
    let level: u32 = if depth < 4 {
        depth as u32 + 2
    } else {
        6
    };
    let lc = char_from_ascii(48 + level);
    assert(lc == digit(heading_level(depth as int)));
    out.append("<section class=\"chapter\"><h");
    push_char(out, lc);
    out.append(">");
    push_xml_escaped(out, doc.title.as_str());
    out.append("</h");
    push_char(out, lc);
    out.append(">\n");
    match &doc.content {
        Some(h) => {
            if trim_str(h.as_str()).len() > 0 {
                push_chapter_content(out, h.as_str(), media);
            }
        },
        None => {},
    }
    out.append("</section>\n");
}

/// Every document's footnotes can be numbered by the `u32` counter.
pub open spec fn contents_fit(docs: Seq<DocNode>) -> bool {
    forall|i: int|
        0 <= i < docs.len() ==> ((#[trigger] docs[i]).content matches Some(h) ==> footnotes_fit(h@))
}

/// Append the chapters in reading order, with the scene separator between
/// top-level documents.
fn push_chapters(out: &mut String, documents: &[DocNode], media: &MediaBundle, sep: &str)
    requires
        documents@.len() < usize::MAX,
        media_fits(media@),
        contents_fit(documents@),
    ensures
        final(out)@ == old(out)@ + chapters(documents@, preorder(documents@), sep@, media@),
{
    let ghost head = out@;
    let ordered = flatten_in_order(documents);
    let ghost order = preorder(documents@);
    let has_sep = sep.unicode_len() > 0;
    let mut seen = false;
    let mut i: usize = 0;
    while i < ordered.len()
        invariant
            i <= ordered@.len(),
            ordered@.len() == order.len(),
            order == preorder(documents@),
            media_fits(media@),
            contents_fit(documents@),
            has_sep == (sep@.len() > 0),
            forall|k: int|
                #![trigger ordered@[k]]
                0 <= k < ordered@.len() ==> ordered@[k].0 as int == order[k].0 && 0 <= order[k].1
                    < documents@.len() && *ordered@[k].1 == documents@[order[k].1],
            seen == roots_before(order.take(i as int)),
            out@ == head + chapters(documents@, order.take(i as int), sep@, media@),
        decreases ordered@.len() - i,
    {
        let (depth, doc) = ordered[i];
        proof {
            assert(ordered@[i as int].0 as int == order[i as int].0);
            assert(order.take(i + 1).drop_last() =~= order.take(i as int));
            assert(order.take(i + 1).last() == order[i as int]);
            assert(documents@[order[i as int].1] == *doc);
        }
        if depth == 0 {
            if seen && has_sep {
                out.append("<p class=\"scene-separator\">");
                push_xml_escaped(out, sep);
                out.append("</p>\n");
            }
            seen = true;
        }
        push_chapter(out, doc, depth, media);
        assert(out@ =~= head + chapters(documents@, order.take(i + 1), sep@, media@));
        i += 1;
    }
    assert(order.take(ordered@.len() as int) =~= order);
}

/// The character view of an optional string.
pub open spec fn opt_view(o: Option<String>) -> Option<Seq<char>> {
    match o {
        Some(a) => Some(a@),
        None => None,
    }
}

/// Wrap the body into the standalone page.
fn wrap_document(title: &str, author: &Option<String>, body: &str) -> (html: String)
    ensures
        html@ == page(title@, opt_view(*author), body@),
{
    let mut html = String::from_str("<!DOCTYPE html>\n<html lang=\"en\">\n<head>\n<meta charset=\"utf-8\">\n<title>");
    push_xml_escaped(&mut html, title);
    html.append("</title>\n");
    match author {
        Some(a) => {
            html.append("<meta name=\"author\" content=\"");
            push_xml_escaped(&mut html, a.as_str());
            html.append("\">\n");
        },
        None => {},
    }
    html.append("<style>\n");
    html.append(PRINT_CSS);
    html.append("\n</style>\n</head>\n<body>\n");
    html.append(body);
    html.append(PAGE_TAIL);
    assert(html@ =~= page(title@, opt_view(*author), body@));
    html
}

/// Render the project as one print-ready HTML page (UTF-8).
pub fn render(
    project: &Project,
    documents: &[DocNode],
    codex: &[CodexEntry],
    media: &MediaBundle,
    config: &ExportConfig,
) -> (r: AppResult<Vec<u8>>)
    requires
        documents@.len() < usize::MAX,
        media_fits(media@),
        contents_fit(documents@),
    ensures
        r matches Ok(b) && b@ == utf8_encode(pdf_html(*project, documents@, codex@, media@, *config)),
{
    let title = match trimmed_nonempty_exec(&config.title_override) {
        Some(t) => t,
        None => project.title.clone(),
    };
    let author: Option<String> = match trimmed_nonempty_exec(&config.author) {
        Some(a) => Some(a),
        None => match &project.metadata {
            Some(m) => match &m.author {
                Some(a) => Some(a.clone()),
                None => None,
            },
            None => None,
        },
    };
    assert(title@ == display_title(*project, *config));
    assert(opt_view(author) == display_author(*project, *config));
    let mut body = String::new();
    if config.include_title_page {
        push_title_page(&mut body, title.as_str(), &author);
    }
    if config.include_toc {
        push_toc(&mut body, documents);
    }
    push_chapters(&mut body, documents, media, config.scene_separator.as_text());
    if config.include_codex && codex.len() > 0 {
        push_codex(&mut body, codex);
    }
    assert(body@ =~= pdf_body(*project, documents@, codex@, media@, *config));
    let html = wrap_document(title.as_str(), &author, body.as_str());
    Ok(utf8_bytes(html.as_str()))
}

} // verus!
