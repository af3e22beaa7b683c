//! Shared helpers for the export renderers: preorder flattening of the
//! binder tree, XML escaping and YAML quoting.
use vstd::prelude::*;
use vstd::string::*;

use crate::domain::DocNode;
use crate::text::{chars_eq, chars_of, push_char};

verus! {

/// The parent id of a document, as characters.
pub open spec fn parent_view(d: DocNode) -> Option<Seq<char>> {
    match d.parent_id {
        Some(p) => Some(p@),
        None => None,
    }
}

/// Indices `i < k` of the documents whose parent is `parent`, in input order.
pub open spec fn children_upto(docs: Seq<DocNode>, parent: Option<Seq<char>>, k: int) -> Seq<int>
    decreases k,
{
    if k <= 0 {
        Seq::empty()
    } else if parent_view(docs[k - 1]) == parent {
        children_upto(docs, parent, k - 1).push(k - 1)
    } else {
        children_upto(docs, parent, k - 1)
    }
}

/// Insert index `x` into `sorted` after every entry whose position is at
/// most `x`'s (the step of a stable insertion sort by `position`).
pub open spec fn insert_by_pos(docs: Seq<DocNode>, sorted: Seq<int>, x: int) -> Seq<int>
    decreases sorted.len(),
{
    if sorted.len() == 0 {
        seq![x]
    } else if docs[sorted.last()].position <= docs[x].position {
        sorted.push(x)
    } else {
        insert_by_pos(docs, sorted.drop_last(), x).push(sorted.last())
    }
}

/// Stable sort of document indices by `position`.
pub open spec fn sort_by_pos(docs: Seq<DocNode>, s: Seq<int>) -> Seq<int>
    decreases s.len(),
{
    if s.len() == 0 {
        Seq::empty()
    } else {
        insert_by_pos(docs, sort_by_pos(docs, s.drop_last()), s.last())
    }
}

/// The children of `parent`, ordered by `position` (ties keep input order).
pub open spec fn children_of(docs: Seq<DocNode>, parent: Option<Seq<char>>) -> Seq<int> {
    sort_by_pos(docs, children_upto(docs, parent, docs.len() as int))
}

/// Preorder walk below `parent` at `depth`: each child paired with its
/// depth, followed by its own subtree. `fuel` bounds the nesting depth.
pub open spec fn walk(docs: Seq<DocNode>, parent: Option<Seq<char>>, depth: int, fuel: nat) -> Seq<
    (int, int),
>
    decreases fuel, 0int,
{
    if fuel == 0 {
        Seq::empty()
    } else {
        walk_list(docs, children_of(docs, parent), depth, (fuel - 1) as nat)
    }
}

/// Preorder walk of a list of sibling indices.
pub open spec fn walk_list(docs: Seq<DocNode>, kids: Seq<int>, depth: int, fuel: nat) -> Seq<
    (int, int),
>
    decreases fuel, 1 + kids.len(),
{
    if kids.len() == 0 {
        Seq::empty()
    } else if 0 <= kids[0] < docs.len() {
        seq![(depth, kids[0])] + walk(docs, Some(docs[kids[0]].id@), depth + 1, fuel)
            + walk_list(docs, kids.drop_first(), depth, fuel)
    } else {
        walk_list(docs, kids.drop_first(), depth, fuel)
    }
}

/// The whole binder in preorder: `(depth, index)` pairs, roots at depth 0.
/// With distinct ids a branch is at most `docs.len()` deep, so the fuel
/// `docs.len() + 1` visits every document reachable from a root.
pub open spec fn preorder(docs: Seq<DocNode>) -> Seq<(int, int)> {
    walk(docs, None, 0, (docs.len() + 1) as nat)
}

/// The characters of an optional character vector.
pub open spec fn opt_chars(o: Option<Vec<char>>) -> Option<Seq<char>> {
    match o {
        Some(p) => Some(p@),
        None => None,
    }
}

/// Whether the optional parent id of `d` equals `parent`.
pub(crate) fn parent_matches(d: &DocNode, parent: &Option<Vec<char>>) -> (r: bool)
    ensures
        r == (parent_view(*d) == opt_chars(*parent)),
{
    match (&d.parent_id, parent) {
        (None, None) => true,
        (Some(a), Some(b)) => {
            let av = chars_of(a.as_str());
            chars_eq(&av, b)
        },
        _ => false,
    }
}

/// Insertion step of the stable sort, on a vector of indices.
pub(crate) fn insert_by_pos_exec(docs: &[DocNode], sorted: &mut Vec<usize>, x: usize)
    requires
        x < docs.len(),
        forall|i: int| 0 <= i < old(sorted)@.len() ==> old(sorted)@[i] < docs.len(),
    ensures
        final(sorted)@.map_values(|v: usize| v as int) == insert_by_pos(
            docs@,
            old(sorted)@.map_values(|v: usize| v as int),
            x as int,
        ),
        forall|i: int| 0 <= i < final(sorted)@.len() ==> final(sorted)@[i] < docs.len(),
    decreases old(sorted)@.len(),
{
    let ghost s0 = sorted@.map_values(|v: usize| v as int);
    if sorted.len() == 0 {
        sorted.push(x);
        assert(sorted@.map_values(|v: usize| v as int) =~= seq![x as int]);
    } else {
        let last = sorted[sorted.len() - 1];
        if docs[last].position <= docs[x].position {
            sorted.push(x);
            assert(sorted@.map_values(|v: usize| v as int) =~= s0.push(x as int));
        } else {
            let ghost before = sorted@;
            sorted.pop();
            assert(sorted@.map_values(|v: usize| v as int) =~= s0.drop_last());
            insert_by_pos_exec(docs, sorted, x);
            let ghost mid = sorted@.map_values(|v: usize| v as int);
            sorted.push(last);
            assert(sorted@.map_values(|v: usize| v as int) =~= mid.push(last as int));
        }
    }
}

/// `children_of` computed on vectors.
fn children_exec(docs: &[DocNode], parent: &Option<Vec<char>>) -> (out: Vec<usize>)
    ensures
        out@.map_values(|v: usize| v as int) == children_of(
            docs@,
            opt_chars(*parent),
        ),
        forall|i: int| 0 <= i < out@.len() ==> out@[i] < docs.len(),
{
    let ghost pv = opt_chars(*parent);
    let mut raw: Vec<usize> = Vec::new();
    let mut k: usize = 0;
    while k < docs.len()
        invariant
            k <= docs.len(),
            pv == opt_chars(*parent),
            raw@.map_values(|v: usize| v as int) == children_upto(docs@, pv, k as int),
            forall|i: int| 0 <= i < raw@.len() ==> raw@[i] < k,
        decreases docs.len() - k,
    {
        let ghost r0 = raw@.map_values(|v: usize| v as int);
        let m = parent_matches(&docs[k], parent);
        if m {
            raw.push(k);
            assert(raw@.map_values(|v: usize| v as int) =~= r0.push(k as int));
            assert(children_upto(docs@, pv, k + 1) == children_upto(docs@, pv, k as int).push(
                k as int,
            ));
        } else {
            assert(children_upto(docs@, pv, k + 1) == children_upto(docs@, pv, k as int));
        }
        k += 1;
    }
    let mut sorted: Vec<usize> = Vec::new();
    let mut j: usize = 0;
    while j < raw.len()
        invariant
            j <= raw.len(),
            forall|i: int| 0 <= i < raw@.len() ==> raw@[i] < docs.len(),
            forall|i: int| 0 <= i < sorted@.len() ==> sorted@[i] < docs.len(),
            sorted@.map_values(|v: usize| v as int) == sort_by_pos(
                docs@,
                raw@.map_values(|v: usize| v as int).take(j as int),
            ),
        decreases raw.len() - j,
    {
        let ghost rv = raw@.map_values(|v: usize| v as int);
        assert(rv.take(j + 1).drop_last() =~= rv.take(j as int));
        assert(rv.take(j + 1).last() == raw@[j as int] as int);
        insert_by_pos_exec(docs, &mut sorted, raw[j]);
        j += 1;
    }
    assert(raw@.map_values(|v: usize| v as int).take(raw.len() as int) =~= raw@.map_values(
        |v: usize| v as int,
    ));
    sorted
}

/// `(depth, index)` pairs as integers.
pub open spec fn pairs_view(v: Seq<(usize, usize)>) -> Seq<(int, int)> {
    v.map_values(|p: (usize, usize)| (p.0 as int, p.1 as int))
}

/// Executable preorder walk (see `walk` / `walk_list`).
fn walk_exec(
    docs: &[DocNode],
    parent: &Option<Vec<char>>,
    depth: usize,
    fuel: usize,
    out: &mut Vec<(usize, usize)>,
)
    requires
        depth + fuel <= docs.len() + 1,
        docs.len() < usize::MAX,
        forall|i: int| 0 <= i < old(out)@.len() ==> old(out)@[i].1 < docs.len(),
    ensures
        forall|i: int| 0 <= i < final(out)@.len() ==> final(out)@[i].1 < docs.len(),
        pairs_view(final(out)@) == pairs_view(old(out)@) + walk(
            docs@,
            opt_chars(*parent),
            depth as int,
            fuel as nat,
        ),
    decreases fuel, 0int,
{
    if fuel == 0 {
        assert(pairs_view(out@) =~= pairs_view(out@) + Seq::<(int, int)>::empty());
        return ;
    }
    let kids = children_exec(docs, parent);
    walk_list_exec(docs, &kids, 0, depth, fuel - 1, out);
    assert(kids@.map_values(|v: usize| v as int).skip(0) =~= kids@.map_values(|v: usize| v as int));
}

/// Executable walk of the siblings `kids[from..]`.
fn walk_list_exec(
    docs: &[DocNode],
    kids: &Vec<usize>,
    from: usize,
    depth: usize,
    fuel: usize,
    out: &mut Vec<(usize, usize)>,
)
    requires
        depth + fuel + 1 <= docs.len() + 1,
        docs.len() < usize::MAX,
        from <= kids.len(),
        forall|i: int| 0 <= i < kids@.len() ==> kids@[i] < docs.len(),
        forall|i: int| 0 <= i < old(out)@.len() ==> old(out)@[i].1 < docs.len(),
    ensures
        forall|i: int| 0 <= i < final(out)@.len() ==> final(out)@[i].1 < docs.len(),
        pairs_view(final(out)@) == pairs_view(old(out)@) + walk_list(
            docs@,
            kids@.map_values(|v: usize| v as int).skip(from as int),
            depth as int,
            fuel as nat,
        ),
    decreases fuel, 1 + kids.len() - from,
{
    let ghost ks = kids@.map_values(|v: usize| v as int).skip(from as int);
    if from == kids.len() {
        assert(ks.len() == 0);
        assert(pairs_view(out@) =~= pairs_view(out@) + Seq::<(int, int)>::empty());
        return ;
    }
    let k = kids[from];
    assert(ks[0] == k as int);
    let ghost o0 = pairs_view(out@);
    out.push((depth, k));
    assert(pairs_view(out@) =~= o0 + seq![(depth as int, k as int)]);
    let idv = chars_of(docs[k].id.as_str());
    let ghost o1 = pairs_view(out@);
    walk_exec(docs, &Some(idv), depth + 1, fuel, out);
    let ghost o2 = pairs_view(out@);
    walk_list_exec(docs, kids, from + 1, depth, fuel, out);
    assert(ks.drop_first() =~= kids@.map_values(|v: usize| v as int).skip(from + 1));
    let ghost w1 = walk(docs@, Some(docs@[k as int].id@), depth + 1, fuel as nat);
    let ghost w2 = walk_list(docs@, ks.drop_first(), depth as int, fuel as nat);
    assert(pairs_view(out@) =~= o0 + (seq![(depth as int, k as int)] + w1 + w2));
}

/// The binder in preorder as `(depth, index)` pairs.
pub fn flatten_indices(documents: &[DocNode]) -> (out: Vec<(usize, usize)>)
    requires
        documents@.len() < usize::MAX,
    ensures
        pairs_view(out@) == preorder(documents@),
        forall|i: int| 0 <= i < out@.len() ==> out@[i].1 < documents@.len(),
{
    let mut out: Vec<(usize, usize)> = Vec::new();
    walk_exec(documents, &None, 0, documents.len() + 1, &mut out);
    assert(pairs_view(out@) =~= Seq::<(int, int)>::empty() + preorder(documents@));
    out
}

/// Preorder traversal of the document tree: each document paired with its
/// depth (0 = root); siblings are ordered by `position`, ties keep input
/// order.
pub fn flatten_in_order(documents: &[DocNode]) -> (out: Vec<(usize, &DocNode)>)
    requires
        documents@.len() < usize::MAX,
    ensures
        out@.len() == preorder(documents@).len(),
        forall|k: int|
            #![trigger out@[k]]
            0 <= k < out@.len() ==> out@[k].0 as int == preorder(documents@)[k].0
                && 0 <= preorder(documents@)[k].1 < documents@.len() && *out@[k].1
                == documents@[preorder(documents@)[k].1],
{
    let idx = flatten_indices(documents);
    let mut out: Vec<(usize, &DocNode)> = Vec::new();
    let mut i: usize = 0;
    while i < idx.len()
        invariant
            i <= idx.len(),
            pairs_view(idx@) == preorder(documents@),
            forall|j: int| 0 <= j < idx@.len() ==> idx@[j].1 < documents@.len(),
            out@.len() == i,
            forall|k: int|
                #![trigger out@[k]]
                0 <= k < i ==> out@[k].0 == idx@[k].0 && *out@[k].1 == documents@[idx@[k].1 as int],
        decreases idx.len() - i,
    {
        let (d, j) = idx[i];
        out.push((d, &documents[j]));
        i += 1;
    }
    proof {
        assert forall|k: int| 0 <= k < out@.len() implies out@[k].0 as int == preorder(
            documents@,
        )[k].0 && 0 <= preorder(documents@)[k].1 < documents@.len() && *out@[k].1 == documents@[preorder(
            documents@,
        )[k].1] by {
            assert(pairs_view(idx@)[k] == (idx@[k].0 as int, idx@[k].1 as int));
        }
    }
    out
}

/// XML escape of one character.
pub open spec fn xml_escape_char(c: char) -> Seq<char> {
    if c == '&' {
        "&amp;"@
    } else if c == '<' {
        "&lt;"@
    } else if c == '>' {
        "&gt;"@
    } else if c == '"' {
        "&quot;"@
    } else if c == '\'' {
        "&apos;"@
    } else {
        seq![c]
    }
}

/// XML escape of a text: each character replaced by its escape.
pub open spec fn xml_escaped(s: Seq<char>) -> Seq<char>
    decreases s.len(),
{
    if s.len() == 0 {
        Seq::empty()
    } else {
        xml_escaped(s.drop_last()) + xml_escape_char(s.last())
    }
}

/// Append the XML escape of `input` to `out`.
pub fn push_xml_escaped(out: &mut String, input: &str)
    ensures
        final(out)@ == old(out)@ + xml_escaped(input@),
{
    let v = chars_of(input);
    let mut i: usize = 0;
    while i < v.len()
        invariant
            i <= v.len(),
            v@ == input@,
            out@ == old(out)@ + xml_escaped(v@.take(i as int)),
        decreases v.len() - i,
    {
        let ghost before = out@;
        let c = v[i];
        if c == '&' {
            out.append("&amp;");
        } else if c == '<' {
            out.append("&lt;");
        } else if c == '>' {
            out.append("&gt;");
        } else if c == '"' {
            out.append("&quot;");
        } else if c == '\'' {
            out.append("&apos;");
        } else {
            push_char(out, c);
        }
        proof {
            assert(v@.take(i + 1).drop_last() =~= v@.take(i as int));
            assert(v@.take(i + 1).last() == c);
            assert(out@ =~= old(out)@ + xml_escaped(v@.take(i + 1)));
        }
        i += 1;
    }
    assert(v@.take(v.len() as int) =~= v@);
}

/// Escape the characters that would break XML/XHTML payloads
/// (`& < > " '`).
pub fn xml_escape(input: &str) -> (out: String)
    ensures
        out@ == xml_escaped(input@),
{
    let mut out = String::new();
    push_xml_escaped(&mut out, input);
    out
}

/// Upper-case hexadecimal digit of a value below 16.
pub open spec fn hex_digit(d: int) -> char {
    if d < 10 {
        ((d + 48) as u32) as char
    } else {
        ((d + 55) as u32) as char
    }
}

/// YAML double-quoted-string escape of one character: backslash, quote and
/// newline are escaped, carriage return is dropped, other control
/// characters become `\u00XX`.
pub open spec fn yaml_escape_char(c: char) -> Seq<char> {
    if c == '\\' {
        "\\\\"@
    } else if c == '"' {
        "\\\""@
    } else if c == '\n' {
        "\\n"@
    } else if c == '\r' {
        Seq::empty()
    } else if (c as u32) < 0x20 {
        "\\u00"@ + seq![hex_digit(((c as u32) / 16) as int), hex_digit(((c as u32) % 16) as int)]
    } else {
        seq![c]
    }
}

/// YAML escape of a whole text.
pub open spec fn yaml_escaped(s: Seq<char>) -> Seq<char>
    decreases s.len(),
{
    if s.len() == 0 {
        Seq::empty()
    } else {
        yaml_escaped(s.drop_last()) + yaml_escape_char(s.last())
    }
}

/// The hexadecimal digit of `d < 16`.
fn hex_digit_exec(d: u32) -> (c: char)
    requires
        d < 16,
    ensures
        c == hex_digit(d as int),
{
    let b: u8 = if d < 10 { (d + 48) as u8 } else { (d + 55) as u8 };
    b as char
}

/// Quote a string for YAML frontmatter: always double-quoted, with
/// backslash, quote, newline and control characters escaped.
pub fn yaml_quote(input: &str) -> (out: String)
    ensures
        out@ == seq!['"'] + yaml_escaped(input@) + seq!['"'],
{
    let v = chars_of(input);
    let mut out = String::new();
    push_char(&mut out, '"');
    let mut i: usize = 0;
    while i < v.len()
        invariant
            i <= v.len(),
            v@ == input@,
            out@ == seq!['"'] + yaml_escaped(v@.take(i as int)),
        decreases v.len() - i,
    {
        let c = v[i];
        if c == '\\' {
            out.append("\\\\");
        } else if c == '"' {
            out.append("\\\"");
        } else if c == '\n' {
            out.append("\\n");
        } else if c == '\r' {
        } else if (c as u32) < 0x20 {
            out.append("\\u00");
            let u = c as u32;
            push_char(&mut out, hex_digit_exec(u / 16));
            push_char(&mut out, hex_digit_exec(u % 16));
        } else {
            push_char(&mut out, c);
        }
        proof {
            assert(v@.take(i + 1).drop_last() =~= v@.take(i as int));
            assert(v@.take(i + 1).last() == c);
            assert(out@ =~= seq!['"'] + yaml_escaped(v@.take(i + 1)));
        }
        i += 1;
    }
    assert(v@.take(v.len() as int) =~= v@);
    push_char(&mut out, '"');
    out
}

} // verus!
