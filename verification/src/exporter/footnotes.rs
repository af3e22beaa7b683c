//! Footnote pre-pass shared by the Markdown, PDF and EPUB renderers.
//!
//! The editor persists a footnote as
//! `<sup data-footnote-id="X" data-footnote-content="Y">…</sup>`. Each
//! chapter's HTML is scanned lexically; every such marker is replaced by a
//! renderer-specific reference and its body collected, numbered from 1.
use vstd::prelude::*;
use vstd::string::*;

use crate::text::{chars_of, extend_chars, find_from, find_from_exec, lemma_find_from_occurs, occurs_at, replace_all, replace_all_exec, slice_chars, string_of};

verus! {

/// One collected footnote: its 1-based number within the chapter and the
/// raw text the user typed.
#[derive(Debug, Clone, PartialEq, Eq)]
pub struct Footnote {
    pub number: u32,
    pub content: String,
}

/// Undo the minimal entity escaping the editor applies to attribute
/// values: `&amp;`, `&lt;`, `&gt;`, `&quot;`, `&#39;`, replaced in that order.
pub open spec fn decoded_entities(s: Seq<char>) -> Seq<char> {
    replace_all(
        replace_all(
            replace_all(replace_all(replace_all(s, "&amp;"@, "&"@), "&lt;"@, "<"@), "&gt;"@, ">"@),
            "&quot;"@,
            "\""@,
        ),
        "&#39;"@,
        "'"@,
    )
}

/// The value of attribute `name` in `tag`: the text between the first
/// `name="` and the next `"`, entity-decoded; `None` if either is missing.
pub open spec fn attr_value(tag: Seq<char>, name: Seq<char>) -> Option<Seq<char>> {
    let needle = name + "=\""@;
    match find_from(tag, needle, 0) {
        None => None,
        Some(i) => {
            let start = i + needle.len();
            match find_from(tag, "\""@, start) {
                None => None,
                Some(e) => Some(decoded_entities(tag.subrange(start, e))),
            }
        },
    }
}

/// The lexical segmentation of `h[cursor..]`: pieces copied verbatim
/// (`(false, text)`) and footnote bodies (`(true, content)`) whose marker
/// is replaced in the output.
pub open spec fn pieces(h: Seq<char>, cursor: int) -> Seq<(bool, Seq<char>)>
    decreases h.len() - cursor,
{
    if cursor < 0 || cursor > h.len() {
        Seq::empty()
    } else {
        match find_from(h, "<sup"@, cursor) {
            None => seq![(false, h.subrange(cursor, h.len() as int))],
            Some(start) => match find_from(h, ">"@, start) {
                None => seq![(false, h.subrange(cursor, h.len() as int))],
                Some(gt) => match find_from(h, "</sup>"@, gt + 1) {
                    None => seq![(false, h.subrange(cursor, h.len() as int))],
                    Some(e) => {
                        let end = e + 6;
                        if end <= cursor || end > h.len() {
                            Seq::empty()
                        } else {
                            match attr_value(h.subrange(start, gt + 1), "data-footnote-content"@) {
                                Some(content) => seq![
                                    (false, h.subrange(cursor, start)),
                                    (true, content),
                                ] + pieces(h, end),
                                None => seq![(false, h.subrange(cursor, end))] + pieces(h, end),
                            }
                        }
                    },
                },
            },
        }
    }
}

/// Number of footnotes among the pieces.
pub open spec fn note_count(ps: Seq<(bool, Seq<char>)>) -> nat
    decreases ps.len(),
{
    if ps.len() == 0 {
        0
    } else {
        note_count(ps.drop_last()) + if ps.last().0 {
            1nat
        } else {
            0nat
        }
    }
}

/// The footnote bodies among the pieces, in order.
pub open spec fn note_bodies(ps: Seq<(bool, Seq<char>)>) -> Seq<Seq<char>>
    decreases ps.len(),
{
    if ps.len() == 0 {
        Seq::empty()
    } else if ps.last().0 {
        note_bodies(ps.drop_last()).push(ps.last().1)
    } else {
        note_bodies(ps.drop_last())
    }
}

/// The rewritten text: verbatim pieces, and for the k-th footnote the
/// reference text `refs[k]`.
pub open spec fn assemble(ps: Seq<(bool, Seq<char>)>, refs: Seq<Seq<char>>) -> Seq<char>
    decreases ps.len(),
{
    if ps.len() == 0 {
        Seq::empty()
    } else if ps.last().0 {
        assemble(ps.drop_last(), refs) + refs[note_count(ps.drop_last()) as int]
    } else {
        assemble(ps.drop_last(), refs) + ps.last().1
    }
}

/// Character views of a sequence of strings.
pub open spec fn strings_view(v: Seq<String>) -> Seq<Seq<char>> {
    v.map_values(|s: String| s@)
}

/// Text view of an exec piece list.
pub open spec fn pieces_view(v: Seq<(bool, Vec<char>)>) -> Seq<(bool, Seq<char>)> {
    v.map_values(|p: (bool, Vec<char>)| (p.0, p.1@))
}

/// `decoded_entities` on a character vector.
fn decode_html_entities(s: &Vec<char>) -> (out: Vec<char>)
    ensures
        out@ == decoded_entities(s@),
{
    let a = replace_all_exec(s, &chars_of("&amp;"), &chars_of("&"));
    let b = replace_all_exec(&a, &chars_of("&lt;"), &chars_of("<"));
    let c = replace_all_exec(&b, &chars_of("&gt;"), &chars_of(">"));
    let d = replace_all_exec(&c, &chars_of("&quot;"), &chars_of("\""));
    replace_all_exec(&d, &chars_of("&#39;"), &chars_of("'"))
}

/// `attr_value` on a character vector.
pub fn extract_attr(tag: &Vec<char>, name: &str) -> (r: Option<Vec<char>>)
    ensures
        r matches Some(v) ==> attr_value(tag@, name@) == Some(v@),
        r is None ==> attr_value(tag@, name@) is None,
{
    let mut needle = chars_of(name);
    needle.push('=');
    needle.push('"');
    assert(needle@ =~= name@ + "=\""@) by {
        reveal_strlit("=\"");
    }
    match find_from_exec(tag, &needle, 0) {
        None => None,
        Some(i) => {
            proof {
                assert(find_from(tag@, needle@, 0) == Some(i as int));
                lemma_find_from_occurs(tag@, needle@, 0);
                assert(occurs_at(tag@, needle@, i as int));
                reveal_strlit("\"");
            }
            let tl = tag.len();
            assert(tl == tag@.len());
            let start = i + needle.len();
            match find_from_exec(tag, &chars_of("\""), start) {
                None => None,
                Some(e) => {
                    proof {
                        lemma_find_from_occurs(tag@, "\""@, start as int);
                    }
                    let raw = slice_chars(tag, start, e);
                    Some(decode_html_entities(&raw))
                },
            }
        },
    }
}

/// Compute the pieces of `h` (exec version of `pieces`).
fn scan_pieces(h: &Vec<char>) -> (out: Vec<(bool, Vec<char>)>)
    ensures
        pieces_view(out@) == pieces(h@, 0),
{
    let open_tag = chars_of("<sup");
    let gt_pat = chars_of(">");
    let close_tag = chars_of("</sup>");
    let mut out: Vec<(bool, Vec<char>)> = Vec::new();
    let mut cursor: usize = 0;
    loop
        invariant
            cursor <= h@.len(),
            open_tag@ == "<sup"@,
            gt_pat@ == ">"@,
            close_tag@ == "</sup>"@,
            pieces_view(out@) + pieces(h@, cursor as int) == pieces(h@, 0),
        decreases h@.len() - cursor,
    {
        let ghost before = pieces_view(out@);
        match find_from_exec(h, &open_tag, cursor) {
            None => {
                out.push((false, slice_chars(h, cursor, h.len())));
                assert(pieces_view(out@) =~= before + pieces(h@, cursor as int));
                return out;
            },
            Some(start) => {
                proof {
                    lemma_find_from_occurs(h@, "<sup"@, cursor as int);
                }
                match find_from_exec(h, &gt_pat, start) {
                    None => {
                        out.push((false, slice_chars(h, cursor, h.len())));
                        assert(pieces_view(out@) =~= before + pieces(h@, cursor as int));
                        return out;
                    },
                    Some(gt) => {
                        proof {
                            lemma_find_from_occurs(h@, ">"@, start as int);
                            reveal_strlit(">");
                        }
                        let hl = h.len();
                        assert(hl == h@.len());
                        match find_from_exec(h, &close_tag, gt + 1) {
                            None => {
                                out.push((false, slice_chars(h, cursor, h.len())));
                                assert(pieces_view(out@) =~= before + pieces(h@, cursor as int));
                                return out;
                            },
                            Some(e) => {
                                proof {
                                    lemma_find_from_occurs(h@, "</sup>"@, gt + 1);
                                    reveal_strlit("</sup>");
                                    reveal_strlit("<sup");
                                }
                                let end = e + 6;
                                let tag = slice_chars(h, start, gt + 1);
                                match extract_attr(&tag, "data-footnote-content") {
                                    Some(content) => {
                                        out.push((false, slice_chars(h, cursor, start)));
                                        out.push((true, content));
                                        assert(pieces_view(out@) + pieces(h@, end as int)
                                            =~= before + pieces(h@, cursor as int));
                                    },
                                    None => {
                                        out.push((false, slice_chars(h, cursor, end)));
                                        assert(pieces_view(out@) + pieces(h@, end as int)
                                            =~= before + pieces(h@, cursor as int));
                                    },
                                }
                                cursor = end;
                            },
                        }
                    },
                }
            },
        }
    }
}

/// The footnotes of `h` can be numbered by a `u32` counter.
pub open spec fn footnotes_fit(h: Seq<char>) -> bool {
    note_count(pieces(h, 0)) <= u32::MAX
}

/// Replace every `<sup …data-footnote-content="…"…>…</sup>` in `html` by
/// `replace_with(n)`, `n` counting the footnotes from 1, and return the
/// rewritten HTML with the ordered footnote list. Other `<sup>` elements,
/// and an unterminated `<sup`, are copied verbatim.
pub fn collect_footnotes<F>(html: &str, replace_with: F) -> (r: (String, Vec<Footnote>))
    where
        F: Fn(u32) -> String,
    requires
        footnotes_fit(html@),
        forall|n: u32| replace_with.requires((n,)),
    ensures
        r.1@.len() == note_bodies(pieces(html@, 0)).len(),
        forall|k: int|
            #![trigger r.1@[k]]
            0 <= k < r.1@.len() ==> r.1@[k].number == k + 1 && r.1@[k].content@ == note_bodies(
                pieces(html@, 0),
            )[k],
        exists|refs: Seq<String>|
            #![trigger assemble(pieces(html@, 0), strings_view(refs))]
            refs.len() == r.1@.len() && (forall|k: int|
                #![trigger refs[k]]
                0 <= k < refs.len() ==> replace_with.ensures(((k + 1) as u32,), refs[k])) && r.0@
                == assemble(pieces(html@, 0), strings_view(refs)),
{
    let h = chars_of(html);
    let ps = scan_pieces(&h);
    let ghost pv = pieces_view(ps@);
    let mut out: Vec<char> = Vec::new();
    let mut notes: Vec<Footnote> = Vec::new();
    let ghost mut refs: Seq<String> = Seq::empty();
    let mut counter: u32 = 0;
    let mut i: usize = 0;
    proof {
        lemma_note_count_bound(pv);
        lemma_pieces_note_count(html@, 0);
    }
    while i < ps.len()
        invariant
            i <= ps@.len(),
            pv == pieces_view(ps@),
            pv == pieces(html@, 0),
            note_count(pv) <= u32::MAX,
            forall|n: u32| replace_with.requires((n,)),
            counter == note_count(pv.take(i as int)),
            notes@.len() == counter,
            refs.len() == counter,
            note_bodies(pv.take(i as int)).len() == counter,
            forall|k: int|
                #![trigger notes@[k]]
                0 <= k < notes@.len() ==> notes@[k].number == k + 1 && notes@[k].content@
                    == note_bodies(pv.take(i as int))[k],
            forall|k: int|
                #![trigger refs[k]]
                0 <= k < refs.len() ==> replace_with.ensures(((k + 1) as u32,), refs[k]),
            out@ == assemble(pv.take(i as int), strings_view(refs)),
        decreases ps@.len() - i,
    {
        proof {
            assert(pv.take(i + 1).drop_last() =~= pv.take(i as int));
            lemma_note_count_prefix(pv, i + 1);
        }
        if ps[i].0 {
            counter = counter + 1;
            let s = replace_with(counter);
            let sv = chars_of(s.as_str());
            let ghost old_refs = refs;
            proof {
                assert(replace_with.ensures((counter,), s));
                assert(((counter - 1 + 1) as u32) == counter);
                refs = refs.push(s);
            }
            extend_chars(&mut out, &sv);
            let body = string_of(&ps[i].1);
            notes.push(Footnote { number: counter, content: body });
            proof {
                assert(pv.take(i + 1).last() == pv[i as int]);
                assert(pv[i as int] == (ps@[i as int].0, ps@[i as int].1@));
                assert forall|k: int|
                    #![trigger refs[k]]
                    0 <= k < refs.len() implies replace_with.ensures(((k + 1) as u32,), refs[k]) by {
                    if k < old_refs.len() {
                        assert(refs[k] == old_refs[k]);
                    }
                }
                assert(strings_view(refs).take(old_refs.len() as int) =~= strings_view(old_refs));
                lemma_assemble_prefix_refs(
                    pv.take(i as int),
                    strings_view(old_refs),
                    strings_view(refs),
                );
                assert(strings_view(refs)[old_refs.len() as int] == s@);
            }
        } else {
            proof {
                assert(pv.take(i + 1).last() == pv[i as int]);
                assert(pv[i as int] == (ps@[i as int].0, ps@[i as int].1@));
            }
            extend_chars(&mut out, &ps[i].1);
        }
        i += 1;
    }
    assert(pv.take(ps@.len() as int) =~= pv);
    let text = string_of(&out);
    assert(text@ == assemble(pieces(html@, 0), strings_view(refs)));
    (text, notes)
}

/// Footnotes in a single piece.
proof fn lemma_note_count_single(p: (bool, Seq<char>))
    ensures
        note_count(seq![p]) == if p.0 {
            1nat
        } else {
            0nat
        },
{
    assert(seq![p].drop_last() =~= Seq::<(bool, Seq<char>)>::empty());
    assert(seq![p].last() == p);
    assert(note_count(Seq::<(bool, Seq<char>)>::empty()) == 0);
}

/// Counting footnotes distributes over concatenation.
proof fn lemma_note_count_concat(a: Seq<(bool, Seq<char>)>, b: Seq<(bool, Seq<char>)>)
    ensures
        note_count(a + b) == note_count(a) + note_count(b),
    decreases b.len(),
{
    if b.len() == 0 {
        assert(a + b =~= a);
    } else {
        assert((a + b).drop_last() =~= a + b.drop_last());
        lemma_note_count_concat(a, b.drop_last());
    }
}

/// Each footnote marker spans several characters, so there are no more
/// footnotes than characters after the cursor.
proof fn lemma_pieces_note_count(h: Seq<char>, cursor: int)
    ensures
        note_count(pieces(h, cursor)) <= if cursor <= h.len() {
            h.len() - cursor
        } else {
            0
        },
    decreases h.len() - cursor,
{
    if cursor < 0 || cursor > h.len() {
    } else {
        match find_from(h, "<sup"@, cursor) {
            None => {
                lemma_note_count_single((false, h.subrange(cursor, h.len() as int)));
            },
            Some(start) => match find_from(h, ">"@, start) {
                None => {
                    lemma_note_count_single((false, h.subrange(cursor, h.len() as int)));
                },
                Some(gt) => match find_from(h, "</sup>"@, gt + 1) {
                    None => {
                        lemma_note_count_single((false, h.subrange(cursor, h.len() as int)));
                    },
                    Some(e) => {
                        let end = e + 6;
                        lemma_find_from_occurs(h, "<sup"@, cursor);
                        lemma_find_from_occurs(h, ">"@, start);
                        if end <= cursor || end > h.len() {
                        } else {
                            lemma_pieces_note_count(h, end);
                            let tag = h.subrange(start, gt + 1);
                            match attr_value(tag, "data-footnote-content"@) {
                                Some(content) => {
                                    let head = seq![
                                        (false, h.subrange(cursor, start)),
                                        (true, content),
                                    ];
                                    lemma_note_count_concat(head, pieces(h, end));
                                    lemma_note_count_single((false, h.subrange(cursor, start)));
                                    assert(head.drop_last() =~= seq![(false, h.subrange(cursor, start))]);
                                    assert(note_count(head) == 1);
                                },
                                None => {
                                    let head = seq![(false, h.subrange(cursor, end))];
                                    lemma_note_count_concat(head, pieces(h, end));
                                    lemma_note_count_single((false, h.subrange(cursor, end)));
                                },
                            }
                        }
                    },
                },
            },
        }
    }
}

/// A piece list with `n` footnotes has at most as many pieces.
proof fn lemma_note_count_bound(ps: Seq<(bool, Seq<char>)>)
    ensures
        note_count(ps) <= ps.len(),
        note_bodies(ps).len() == note_count(ps),
    decreases ps.len(),
{
    if ps.len() > 0 {
        lemma_note_count_bound(ps.drop_last());
    }
}

/// Counting footnotes is monotone along prefixes.
proof fn lemma_note_count_prefix(ps: Seq<(bool, Seq<char>)>, k: int)
    requires
        0 <= k <= ps.len(),
    ensures
        note_count(ps.take(k)) <= note_count(ps),
        note_bodies(ps.take(k)).len() == note_count(ps.take(k)),
    decreases ps.len(),
{
    lemma_note_count_bound(ps.take(k));
    if k < ps.len() {
        assert(ps.drop_last().take(k) =~= ps.take(k));
        lemma_note_count_prefix(ps.drop_last(), k);
    } else {
        assert(ps.take(k) =~= ps);
    }
}

/// Extending the reference list leaves an already-assembled prefix alone.
proof fn lemma_assemble_prefix_refs(
    ps: Seq<(bool, Seq<char>)>,
    refs: Seq<Seq<char>>,
    more: Seq<Seq<char>>,
)
    requires
        note_count(ps) <= refs.len(),
        refs.len() <= more.len(),
        refs == more.take(refs.len() as int),
    ensures
        assemble(ps, refs) == assemble(ps, more),
    decreases ps.len(),
{
    if ps.len() > 0 {
        lemma_assemble_prefix_refs(ps.drop_last(), refs, more);
    }
}

} // verus!
