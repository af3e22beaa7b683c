//! DOCX import. A DOCX is a zip whose `word/document.xml` holds the body
//! in the WordprocessingML namespace. Each heading paragraph becomes a
//! node nested by level; the other paragraphs become HTML under the most
//! recent heading. Bold, italic, underline, strikethrough and the `Code`
//! character style are kept; tables and footnotes are dropped.
use vstd::prelude::*;
use vstd::string::*;

use crate::error::{AppError, AppResult};
use crate::importer::markdown::{build_forest, forest, nodes_view, opt_push, section_view, section_views, Section, SectionView};
use crate::importer::{ascii_lower_chars, ImportNode, ImportTree};
use crate::text::{
    ascii_lower_str, chars_eq, chars_of, extend_chars, extend_str, push_char, slice_chars, starts_with,
    starts_with_exec, string_of, string_views, trim, trim_chars,
};

verus! {

/// The WordprocessingML namespace.
pub const W_NS: &'static str = "http://schemas.openxmlformats.org/wordprocessingml/2006/main";

/// A node of the XML document, in document order below (and including)
/// the root element: how many ancestors it has counting itself, whether it
/// is an element, its namespace and local name (none and empty for other
/// nodes), its attributes as `(namespace, local name, value)`, and its
/// text (a text node's content; an element's first child's text when that
/// child is a text node).
#[derive(Debug, Clone)]
pub struct XmlNode {
    pub ancestors: usize,
    pub is_element: bool,
    pub namespace: Option<String>,
    pub name: String,
    pub attrs: Vec<(Option<String>, String, String)>,
    pub text: Option<String>,
}

/// The view of an XML node: ancestors, element flag, namespace, local
/// name, attributes, text.
pub type XmlNodeView = (nat, bool, Option<Seq<char>>, Seq<char>, Seq<(Option<Seq<char>>, Seq<char>, Seq<char>)>, Option<Seq<char>>);

/// An optional string as characters.
pub open spec fn opt_view(o: Option<String>) -> Option<Seq<char>> {
    match o {
        Some(s) => Some(s@),
        None => None,
    }
}

/// Attributes as characters.
pub open spec fn attrs_view(a: Seq<(Option<String>, String, String)>) -> Seq<(Option<Seq<char>>, Seq<char>, Seq<char>)> {
    a.map_values(|t: (Option<String>, String, String)| (opt_view(t.0), t.1@, t.2@))
}

/// The view of an XML node.
pub open spec fn xml_view(n: XmlNode) -> (nat, bool, Option<Seq<char>>, Seq<char>, Seq<(Option<Seq<char>>, Seq<char>, Seq<char>)>, Option<Seq<char>>) {
    (n.ancestors as nat, n.is_element, opt_view(n.namespace), n.name@, attrs_view(n.attrs@), opt_view(n.text))
}

/// The views of a node list.
pub open spec fn xml_views(v: Seq<XmlNode>) -> Seq<(nat, bool, Option<Seq<char>>, Seq<char>, Seq<(Option<Seq<char>>, Seq<char>, Seq<char>)>, Option<Seq<char>>)> {
    v.map_values(|n: XmlNode| xml_view(n))
}

/// What `roxmltree` reads from an XML text: the nodes below and including
/// the root element in document order, or the text of the parse error.
pub uninterp spec fn xml_parsed(text: Seq<char>) -> Result<Seq<(nat, bool, Option<Seq<char>>, Seq<char>, Seq<(Option<Seq<char>>, Seq<char>, Seq<char>)>, Option<Seq<char>>)>, Seq<char>>;

/// `roxmltree::Document::parse`, each node of `root_element().descendants()`
/// handed out as plain values (`ancestors().count()`, `is_element`,
/// `tag_name()`, `attributes()`, `text()`); a parse error as its
/// `Display` text. The result is named by `xml_parsed`.
#[verifier::external_body]
fn parse_xml(text: &str) -> (r: Result<Vec<XmlNode>, String>)
    ensures
        match r {
            Ok(v) => xml_parsed(text@) == Ok::<_, Seq<char>>(xml_views(v@)),
            Err(m) => xml_parsed(text@) == Err::<Seq<(nat, bool, Option<Seq<char>>, Seq<char>, Seq<(Option<Seq<char>>, Seq<char>, Seq<char>)>, Option<Seq<char>>)>, _>(m@),
        },
{
    match roxmltree::Document::parse(text) {
        Ok(doc) => Ok(doc.root_element().descendants().map(|n| XmlNode {
            ancestors: n.ancestors().count(),
            is_element: n.is_element(),
            namespace: n.tag_name().namespace().map(String::from),
            name: n.tag_name().name().to_string(),
            attrs: n.attributes().map(|a| (a.namespace().map(String::from), a.name().to_string(), a.value().to_string())).collect(),
            text: n.text().map(String::from),
        }).collect()),
        Err(e) => Err(e.to_string()),
    }
}

/// Why the document part could not be read from the archive.
#[derive(Debug)]
pub enum DocxReadError {
    /// The payload is not a zip; the zip crate's error text.
    NotZip(String),
    /// The archive has no `word/document.xml`.
    MissingEntry,
    /// The entry could not be read as UTF-8 text; the error text.
    Unreadable(String),
}

/// The text of `word/document.xml` in a zip archive, when the archive opens,
/// holds that entry and the entry is UTF-8 text.
pub uninterp spec fn docx_document_xml(bytes: Seq<u8>) -> Option<Seq<char>>;

/// `ZipArchive::new` over the bytes, `by_name("word/document.xml")` and
/// `read_to_string` of that entry. The text read is named by
/// `docx_document_xml`; a failure says which step failed. A malformed
/// archive is reported as an error by `zip`; its reader's source was not
/// read far enough here to rule out a panic on some input.
#[verifier::external_body]
fn read_document_xml(bytes: &[u8]) -> (r: Result<String, DocxReadError>)
    ensures
        match r {
            Ok(x) => docx_document_xml(bytes@) == Some(x@),
            Err(_) => docx_document_xml(bytes@) is None,
        },
{
    let mut zip = match zip::ZipArchive::new(std::io::Cursor::new(bytes)) {
        Ok(z) => z,
        Err(e) => return Err(DocxReadError::NotZip(e.to_string())),
    };
    let mut entry = match zip.by_name("word/document.xml") {
        Ok(f) => f,
        Err(_) => return Err(DocxReadError::MissingEntry),
    };
    let mut xml = String::new();
    match std::io::Read::read_to_string(&mut entry, &mut xml) {
        Ok(_) => Ok(xml),
        Err(e) => Err(DocxReadError::Unreadable(e.to_string())),
    }
}

/// An element of the WordprocessingML namespace with the given local name.
pub open spec fn named(
    n: (nat, bool, Option<Seq<char>>, Seq<char>, Seq<(Option<Seq<char>>, Seq<char>, Seq<char>)>, Option<Seq<char>>),
    local: Seq<char>,
) -> bool {
    n.1 && n.2 == Some(W_NS@) && n.3 == local
}

/// The children of node `i` found scanning from `j`: the following nodes
/// one level deeper, up to the first node that is not below `i`.
pub open spec fn child_list(
    ns: Seq<(nat, bool, Option<Seq<char>>, Seq<char>, Seq<(Option<Seq<char>>, Seq<char>, Seq<char>)>, Option<Seq<char>>)>,
    i: int,
    j: int,
) -> Seq<int>
    decreases ns.len() - j,
{
    if j < 0 || j >= ns.len() || ns[j].0 <= ns[i].0 {
        Seq::empty()
    } else if ns[j].0 == ns[i].0 + 1 {
        seq![j] + child_list(ns, i, j + 1)
    } else {
        child_list(ns, i, j + 1)
    }
}

/// The children of node `i`, in document order.
pub open spec fn children(
    ns: Seq<(nat, bool, Option<Seq<char>>, Seq<char>, Seq<(Option<Seq<char>>, Seq<char>, Seq<char>)>, Option<Seq<char>>)>,
    i: int,
) -> Seq<int> {
    child_list(ns, i, i + 1)
}

/// The first of the listed nodes with the given local name in the
/// namespace.
pub open spec fn first_named(
    ns: Seq<(nat, bool, Option<Seq<char>>, Seq<char>, Seq<(Option<Seq<char>>, Seq<char>, Seq<char>)>, Option<Seq<char>>)>,
    kids: Seq<int>,
    local: Seq<char>,
) -> Option<int>
    decreases kids.len(),
{
    if kids.len() == 0 {
        None
    } else if 0 <= kids[0] < ns.len() && named(ns[kids[0]], local) {
        Some(kids[0])
    } else {
        first_named(ns, kids.drop_first(), local)
    }
}

/// The value of the namespaced attribute `name`.
pub open spec fn w_attr(attrs: Seq<(Option<Seq<char>>, Seq<char>, Seq<char>)>, name: Seq<char>) -> Option<Seq<char>>
    decreases attrs.len(),
{
    if attrs.len() == 0 {
        None
    } else if attrs[0].0 == Some(W_NS@) && attrs[0].1 == name {
        Some(attrs[0].2)
    } else {
        w_attr(attrs.drop_first(), name)
    }
}

/// The node views of the exec nodes, for the functions below.
pub open spec fn nv(nodes: &Vec<XmlNode>) -> Seq<(nat, bool, Option<Seq<char>>, Seq<char>, Seq<(Option<Seq<char>>, Seq<char>, Seq<char>)>, Option<Seq<char>>)> {
    xml_views(nodes@)
}

/// Whether an optional string equals a literal.
fn opt_is(o: &Option<String>, lit: &str) -> (r: bool)
    ensures
        r == (opt_view(*o) == Some(lit@)),
{
    match o {
        Some(s) => {
            let a = chars_of(s.as_str());
            let b = chars_of(lit);
            chars_eq(&a, &b)
        },
        None => false,
    }
}

/// `named` on an exec node.
fn is_named(n: &XmlNode, local: &str) -> (r: bool)
    ensures
        r == named(xml_view(*n), local@),
{
    if !n.is_element || !opt_is(&n.namespace, W_NS) {
        return false;
    }
    let a = chars_of(n.name.as_str());
    let b = chars_of(local);
    chars_eq(&a, &b)
}

/// The children of node `i`.
fn children_exec(nodes: &Vec<XmlNode>, i: usize) -> (r: Vec<usize>)
    requires
        i < nodes@.len(),
    ensures
        r@.map_values(|k: usize| k as int) == children(nv(nodes), i as int),
        forall|t: int| 0 <= t < r@.len() ==> r@[t] < nodes@.len(),
{
    let ghost ns = nv(nodes);
    let mut r: Vec<usize> = Vec::new();
    let n = nodes.len();
    assert(i < n);
    let mut j = i + 1;
    assert(ns[i as int].0 == nodes@[i as int].ancestors);
    while j < nodes.len() && nodes[j].ancestors > nodes[i].ancestors
        invariant
            i < j <= nodes@.len(),
            ns == nv(nodes),
            forall|t: int| 0 <= t < r@.len() ==> r@[t] < j,
            r@.map_values(|k: usize| k as int) + child_list(ns, i as int, j as int) == children(
                ns,
                i as int,
            ),
        decreases nodes@.len() - j,
    {
        assert(ns[j as int].0 == nodes@[j as int].ancestors);
        assert(ns[i as int].0 == nodes@[i as int].ancestors);
        let ghost before = r@.map_values(|k: usize| k as int);
        if nodes[j].ancestors == nodes[i].ancestors + 1 {
            r.push(j);
            assert(r@.map_values(|k: usize| k as int) =~= before.push(j as int));
            assert(before.push(j as int) + child_list(ns, i as int, j + 1) =~= before + (seq![j as int]
                + child_list(ns, i as int, j + 1)));
        }
        j += 1;
    }
    proof {
        if j < nodes.len() {
            assert(ns[j as int].0 == nodes@[j as int].ancestors);
            assert(ns[i as int].0 == nodes@[i as int].ancestors);
        }
        assert(child_list(ns, i as int, j as int) =~= Seq::<int>::empty());
        assert(r@.map_values(|k: usize| k as int) + Seq::<int>::empty() =~= r@.map_values(
            |k: usize| k as int,
        ));
    }
    r
}

/// The first listed node with the given local name.
fn first_named_exec(nodes: &Vec<XmlNode>, kids: &Vec<usize>, local: &str) -> (r: Option<usize>)
    requires
        forall|t: int| 0 <= t < kids@.len() ==> kids@[t] < nodes@.len(),
    ensures
        match r {
            Some(k) => first_named(nv(nodes), kids@.map_values(|x: usize| x as int), local@) == Some(
                k as int,
            ) && k < nodes@.len(),
            None => first_named(nv(nodes), kids@.map_values(|x: usize| x as int), local@) is None,
        },
{
    let ghost kv = kids@.map_values(|x: usize| x as int);
    let mut t: usize = 0;
    assert(kv.skip(0) =~= kv);
    while t < kids.len()
        invariant
            t <= kids@.len(),
            kv == kids@.map_values(|x: usize| x as int),
            forall|q: int| 0 <= q < kids@.len() ==> kids@[q] < nodes@.len(),
            first_named(nv(nodes), kv.skip(t as int), local@) == first_named(nv(nodes), kv, local@),
        decreases kids@.len() - t,
    {
        let k = kids[t];
        assert(kv.skip(t as int)[0] == k as int);
        assert(kv.skip(t as int).drop_first() =~= kv.skip(t + 1));
        assert(nv(nodes)[k as int] == xml_view(nodes@[k as int]));
        if is_named(&nodes[k], local) {
            return Some(k);
        }
        t += 1;
    }
    assert(kv.skip(t as int) =~= Seq::<int>::empty());
    None
}

/// The value of the namespaced attribute `name` of a node.
fn w_attr_exec(n: &XmlNode, name: &str) -> (r: Option<String>)
    ensures
        opt_view(r) == w_attr(attrs_view(n.attrs@), name@),
{
    let ghost av = attrs_view(n.attrs@);
    let want = chars_of(name);
    let mut t: usize = 0;
    assert(av.skip(0) =~= av);
    while t < n.attrs.len()
        invariant
            t <= n.attrs@.len(),
            av == attrs_view(n.attrs@),
            want@ == name@,
            w_attr(av.skip(t as int), name@) == w_attr(av, name@),
        decreases n.attrs@.len() - t,
    {
        assert(av.skip(t as int)[0] == av[t as int]);
        assert(av.skip(t as int).drop_first() =~= av.skip(t + 1));
        let a = &n.attrs[t];
        let local = chars_of(a.1.as_str());
        if opt_is(&a.0, W_NS) && chars_eq(&local, &want) {
            return Some(a.2.clone());
        }
        t += 1;
    }
    assert(av.skip(t as int) =~= Seq::<(Option<Seq<char>>, Seq<char>, Seq<char>)>::empty());
    None
}

/// A style name lower-cased (ASCII) with spaces, underscores and hyphens
/// removed.
pub open spec fn squeeze(s: Seq<char>) -> Seq<char>
    decreases s.len(),
{
    if s.len() == 0 {
        Seq::empty()
    } else if s.last() == ' ' || s.last() == '_' || s.last() == '-' {
        squeeze(s.drop_last())
    } else {
        squeeze(s.drop_last()).push(s.last())
    }
}

/// What follows a heading prefix: `heading`, `titulo`, `título` or `ttulo`
/// (the Spanish name with its accented letter lost), tried in that order.
pub open spec fn heading_rest(low: Seq<char>) -> Option<Seq<char>> {
    if starts_with(low, "heading"@) {
        Some(low.skip(7))
    } else if starts_with(low, "titulo"@) {
        Some(low.skip(6))
    } else if starts_with(low, "título"@) {
        Some(low.skip(6))
    } else if starts_with(low, "ttulo"@) {
        Some(low.skip(5))
    } else {
        None
    }
}

/// An ASCII digit.
pub open spec fn is_digit(c: char) -> bool {
    '0' <= c && c <= '9'
}

/// The value of a string of decimal digits.
pub open spec fn digits_value(d: Seq<char>) -> nat
    decreases d.len(),
{
    if d.len() == 0 {
        0
    } else {
        digits_value(d.drop_last()) * 10 + ((d.last() as u32) - 48) as nat
    }
}

/// A number text without its optional leading `+`.
pub open spec fn sign_stripped(s: Seq<char>) -> Seq<char> {
    if s.len() > 0 && s[0] == '+' {
        s.drop_first()
    } else {
        s
    }
}

/// Every character is a digit.
pub open spec fn all_digits(d: Seq<char>) -> bool {
    forall|i: int| 0 <= i < d.len() ==> is_digit(#[trigger] d[i])
}

/// `str::parse::<u8>`: an optional `+`, then one or more digits whose
/// value is at most 255.
pub open spec fn parsed_u8(s: Seq<char>) -> Option<nat> {
    if sign_stripped(s).len() > 0 && all_digits(sign_stripped(s)) && digits_value(sign_stripped(s))
        <= 255 {
        Some(digits_value(sign_stripped(s)))
    } else {
        None
    }
}

/// The heading level a paragraph style names: `Heading1`, `Heading 2`,
/// `heading_3`, `Titulo4`, `Título5`, `Ttulo6`…, levels one to six only.
pub open spec fn heading_style(val: Seq<char>) -> Option<nat> {
    match heading_rest(squeeze(ascii_lower_str(val))) {
        None => None,
        Some(rest) => match parsed_u8(rest) {
            Some(n) => if 1 <= n && n <= 6 {
                Some(n)
            } else {
                None
            },
            None => None,
        },
    }
}

/// The digit value capped at 256 (past 255 only "too large" matters).
pub open spec fn capped_value(d: Seq<char>) -> nat
    decreases d.len(),
{
    if d.len() == 0 {
        0
    } else {
        let v = capped_value(d.drop_last()) * 10 + ((d.last() as u32) - 48) as nat;
        if v > 256 {
            256
        } else {
            v
        }
    }
}

proof fn lemma_capped_value(d: Seq<char>)
    requires
        forall|i: int| 0 <= i < d.len() ==> is_digit(#[trigger] d[i]),
    ensures
        capped_value(d) == if digits_value(d) > 256 {
            256
        } else {
            digits_value(d)
        },
    decreases d.len(),
{
    if d.len() > 0 {
        let p = d.drop_last();
        assert forall|i: int| 0 <= i < p.len() implies is_digit(#[trigger] p[i]) by {
            assert(p[i] == d[i]);
        }
        lemma_capped_value(p);
        assert(is_digit(d[d.len() - 1]));
    }
}

/// `squeeze` computed.
fn squeeze_exec(v: &Vec<char>) -> (r: Vec<char>)
    ensures
        r@ == squeeze(v@),
{
    let mut r: Vec<char> = Vec::new();
    let mut i: usize = 0;
    while i < v.len()
        invariant
            i <= v@.len(),
            r@ == squeeze(v@.take(i as int)),
        decreases v@.len() - i,
    {
        assert(v@.take(i + 1).drop_last() =~= v@.take(i as int));
        assert(v@.take(i + 1).last() == v@[i as int]);
        let c = v[i];
        if !(c == ' ' || c == '_' || c == '-') {
            r.push(c);
        }
        i += 1;
    }
    assert(v@.take(v@.len() as int) =~= v@);
    r
}

/// `parsed_u8` computed.
fn parse_u8(s: &Vec<char>) -> (r: Option<u8>)
    ensures
        match r {
            Some(n) => parsed_u8(s@) == Some(n as nat),
            None => parsed_u8(s@) is None,
        },
{
    let start: usize = if s.len() > 0 && s[0] == '+' {
        1
    } else {
        0
    };
    let d = slice_chars(s, start, s.len());
    assert(d@ =~= sign_stripped(s@));
    if d.len() == 0 {
        return None;
    }
    let mut v: u32 = 0;
    let mut i: usize = 0;
    while i < d.len()
        invariant
            i <= d@.len(),
            d@ == sign_stripped(s@),
            forall|t: int| 0 <= t < i ==> is_digit(#[trigger] d@[t]),
            v == capped_value(d@.take(i as int)),
            v <= 256,
        decreases d@.len() - i,
    {
        let c = d[i];
        if !('0' <= c && c <= '9') {
            assert(!is_digit(d@[i as int]));
            return None;
        }
        assert(d@.take(i + 1).drop_last() =~= d@.take(i as int));
        assert(d@.take(i + 1).last() == c);
        let digit = (c as u32) - 48;
        let w = v * 10 + digit;
        v = if w > 256 {
            256
        } else {
            w
        };
        i += 1;
    }
    assert(d@.take(d@.len() as int) =~= d@);
    proof {
        lemma_capped_value(d@);
    }
    if v <= 255 {
        Some(v as u8)
    } else {
        None
    }
}

/// The heading level of a paragraph style, if it names one.
pub fn parse_heading_style(val: &str) -> (r: Option<u8>)
    ensures
        match r {
            Some(n) => heading_style(val@) == Some(n as nat),
            None => heading_style(val@) is None,
        },
{
    let low = squeeze_exec(&ascii_lower_chars(&chars_of(val)));
    let skip: usize = if starts_with_exec(&low, &chars_of("heading")) {
        7
    } else if starts_with_exec(&low, &chars_of("titulo")) {
        6
    } else if starts_with_exec(&low, &chars_of("título")) {
        6
    } else if starts_with_exec(&low, &chars_of("ttulo")) {
        5
    } else {
        return None;
    };
    proof {
        reveal_strlit("heading");
        reveal_strlit("titulo");
        reveal_strlit("título");
        reveal_strlit("ttulo");
    }
    let rest = slice_chars(&low, skip, low.len());
    assert(heading_rest(low@) == Some(rest@));
    match parse_u8(&rest) {
        Some(n) => {
            if 1 <= n && n <= 6 {
                Some(n)
            } else {
                None
            }
        },
        None => None,
    }
}

/// A `val` attribute that turns a toggle off: `0`, `false`, `off`, `False`.
pub open spec fn explicit_false(n: XmlNodeView) -> bool {
    match w_attr(n.4, "val"@) {
        Some(v) => v == "0"@ || v == "false"@ || v == "off"@ || v == "False"@,
        None => false,
    }
}

/// The marks after reading one run property: bold, italic, underline,
/// strikethrough, code.
pub open spec fn apply_mark(m: (bool, bool, bool, bool, bool), n: XmlNodeView) -> (bool, bool, bool, bool, bool) {
    if n.3 == "b"@ && !explicit_false(n) {
        (true, m.1, m.2, m.3, m.4)
    } else if n.3 == "i"@ && !explicit_false(n) {
        (m.0, true, m.2, m.3, m.4)
    } else if n.3 == "u"@ && w_attr(n.4, "val"@) != Some("none"@) {
        (m.0, m.1, true, m.3, m.4)
    } else if n.3 == "strike"@ && !explicit_false(n) {
        (m.0, m.1, m.2, true, m.4)
    } else if n.3 == "rStyle"@ && w_attr(n.4, "val"@) == Some("Code"@) {
        (m.0, m.1, m.2, m.3, true)
    } else {
        m
    }
}

/// The marks set by the listed run properties (by local name).
pub open spec fn marks_of(ns: Seq<XmlNodeView>, kids: Seq<int>) -> (bool, bool, bool, bool, bool)
    decreases kids.len(),
{
    if kids.len() == 0 {
        (false, false, false, false, false)
    } else {
        apply_mark(marks_of(ns, kids.drop_last()), ns[kids.last()])
    }
}

/// The marks of a run, from its `rPr` element.
pub open spec fn run_marks(ns: Seq<XmlNodeView>, run: int) -> (bool, bool, bool, bool, bool) {
    match first_named(ns, children(ns, run), "rPr"@) {
        None => (false, false, false, false, false),
        Some(rp) => marks_of(ns, children(ns, rp)),
    }
}

/// The text of the listed `t` elements, concatenated.
pub open spec fn t_text(ns: Seq<XmlNodeView>, kids: Seq<int>) -> Seq<char>
    decreases kids.len(),
{
    if kids.len() == 0 {
        Seq::empty()
    } else {
        let n = ns[kids.last()];
        t_text(ns, kids.drop_last()) + if named(n, "t"@) && n.5 is Some {
            n.5->0
        } else {
            Seq::<char>::empty()
        }
    }
}

/// Whether a `br` element is listed.
pub open spec fn has_br(ns: Seq<XmlNodeView>, kids: Seq<int>) -> bool
    decreases kids.len(),
{
    if kids.len() == 0 {
        false
    } else {
        has_br(ns, kids.drop_last()) || named(ns[kids.last()], "br"@)
    }
}

/// HTML escape of one character: `&`, `<` and `>`.
pub open spec fn html_escape_char(c: char) -> Seq<char> {
    if c == '&' {
        "&amp;"@
    } else if c == '<' {
        "&lt;"@
    } else if c == '>' {
        "&gt;"@
    } else {
        seq![c]
    }
}

/// HTML escape of a text.
pub open spec fn html_escaped(s: Seq<char>) -> Seq<char>
    decreases s.len(),
{
    if s.len() == 0 {
        Seq::empty()
    } else {
        html_escaped(s.drop_last()) + html_escape_char(s.last())
    }
}

/// `s` inside `<tag>…</tag>` when `on`.
pub open spec fn wrap(tag: Seq<char>, on: bool, s: Seq<char>) -> Seq<char> {
    if on {
        "<"@ + tag + ">"@ + s + "</"@ + tag + ">"@
    } else {
        s
    }
}

/// Run text as HTML: escaped, then wrapped in code, s, u, em and strong
/// (innermost first) as the marks say.
pub open spec fn styled(t: Seq<char>, m: (bool, bool, bool, bool, bool)) -> Seq<char> {
    wrap(
        "strong"@,
        m.0,
        wrap("em"@, m.1, wrap("u"@, m.2, wrap("s"@, m.3, wrap("code"@, m.4, html_escaped(t))))),
    )
}

/// What a run adds to its paragraph: `(plain text, HTML)`. A run without
/// text adds `<br/>` when it holds a break, else nothing.
pub open spec fn run_parts(ns: Seq<XmlNodeView>, run: int) -> (Seq<char>, Seq<char>) {
    let kids = children(ns, run);
    let t = t_text(ns, kids);
    if t.len() == 0 {
        (Seq::empty(), if has_br(ns, kids) {
            "<br/>"@
        } else {
            Seq::<char>::empty()
        })
    } else {
        (t, styled(t, run_marks(ns, run)))
    }
}

/// The text and HTML of the listed `r` elements, concatenated.
pub open spec fn runs_parts(ns: Seq<XmlNodeView>, kids: Seq<int>) -> (Seq<char>, Seq<char>)
    decreases kids.len(),
{
    if kids.len() == 0 {
        (Seq::empty(), Seq::empty())
    } else {
        let prev = runs_parts(ns, kids.drop_last());
        if named(ns[kids.last()], "r"@) {
            let p = run_parts(ns, kids.last());
            (prev.0 + p.0, prev.1 + p.1)
        } else {
            prev
        }
    }
}

/// The heading level of a paragraph, from `pPr/pStyle/@val`.
pub open spec fn para_level(ns: Seq<XmlNodeView>, p: int) -> Option<nat> {
    match first_named(ns, children(ns, p), "pPr"@) {
        None => None,
        Some(pp) => match first_named(ns, children(ns, pp), "pStyle"@) {
            None => None,
            Some(st) => match w_attr(ns[st].4, "val"@) {
                None => None,
                Some(v) => heading_style(v),
            },
        },
    }
}

/// A paragraph: its heading level if any, its plain text, and its HTML
/// (`<p>…</p>` for body paragraphs, empty for headings).
pub open spec fn para_of(ns: Seq<XmlNodeView>, p: int) -> (Option<nat>, Seq<char>, Seq<char>) {
    let parts = runs_parts(ns, children(ns, p));
    let lvl = para_level(ns, p);
    (lvl, parts.0, if lvl is Some {
        Seq::<char>::empty()
    } else {
        "<p>"@ + parts.1 + "</p>"@
    })
}

/// The paragraphs among the first `k` nodes, blank body paragraphs left
/// out.
pub open spec fn paras_upto(ns: Seq<XmlNodeView>, k: int) -> Seq<(Option<nat>, Seq<char>, Seq<char>)>
    decreases k,
{
    if k <= 0 {
        Seq::empty()
    } else {
        let rest = paras_upto(ns, k - 1);
        if named(ns[k - 1], "p"@) {
            let s = para_of(ns, k - 1);
            if s.0 is None && trim(s.1).len() == 0 {
                rest
            } else {
                rest.push(s)
            }
        } else {
            rest
        }
    }
}

/// All kept paragraphs of the document, in order.
pub open spec fn paragraphs(ns: Seq<XmlNodeView>) -> Seq<(Option<nat>, Seq<char>, Seq<char>)> {
    paras_upto(ns, ns.len() as int)
}

/// Whether the `val` attribute equals one of the literals.
fn attr_is(n: &XmlNode, lit: &str) -> (r: bool)
    ensures
        r == (w_attr(attrs_view(n.attrs@), "val"@) == Some(lit@)),
{
    let v = w_attr_exec(n, "val");
    opt_is(&v, lit)
}

/// `explicit_false` computed.
fn explicit_false_exec(n: &XmlNode) -> (r: bool)
    ensures
        r == explicit_false(xml_view(*n)),
{
    attr_is(n, "0") || attr_is(n, "false") || attr_is(n, "off") || attr_is(n, "False")
}

/// Whether a node's local name is `lit` (namespace and kind ignored).
fn name_is(n: &XmlNode, lit: &str) -> (r: bool)
    ensures
        r == (n.name@ == lit@),
{
    let a = chars_of(n.name.as_str());
    let b = chars_of(lit);
    chars_eq(&a, &b)
}

/// `apply_mark` computed.
fn apply_mark_exec(m: (bool, bool, bool, bool, bool), n: &XmlNode) -> (r: (bool, bool, bool, bool, bool))
    ensures
        r == apply_mark(m, xml_view(*n)),
{
    if name_is(n, "b") && !explicit_false_exec(n) {
        (true, m.1, m.2, m.3, m.4)
    } else if name_is(n, "i") && !explicit_false_exec(n) {
        (m.0, true, m.2, m.3, m.4)
    } else if name_is(n, "u") && !attr_is(n, "none") {
        (m.0, m.1, true, m.3, m.4)
    } else if name_is(n, "strike") && !explicit_false_exec(n) {
        (m.0, m.1, m.2, true, m.4)
    } else if name_is(n, "rStyle") && attr_is(n, "Code") {
        (m.0, m.1, m.2, m.3, true)
    } else {
        m
    }
}

/// `run_marks` computed.
fn run_marks_exec(nodes: &Vec<XmlNode>, run: usize) -> (r: (bool, bool, bool, bool, bool))
    requires
        run < nodes@.len(),
    ensures
        r == run_marks(nv(nodes), run as int),
{
    let kids = children_exec(nodes, run);
    match first_named_exec(nodes, &kids, "rPr") {
        None => (false, false, false, false, false),
        Some(rp) => {
            let props = children_exec(nodes, rp);
            let ghost pv = props@.map_values(|k: usize| k as int);
            let mut m = (false, false, false, false, false);
            let mut t: usize = 0;
            while t < props.len()
                invariant
                    t <= props@.len(),
                    pv == props@.map_values(|k: usize| k as int),
                    forall|q: int| 0 <= q < props@.len() ==> props@[q] < nodes@.len(),
                    m == marks_of(nv(nodes), pv.take(t as int)),
                decreases props@.len() - t,
            {
                assert(pv.take(t + 1).drop_last() =~= pv.take(t as int));
                assert(pv.take(t + 1).last() == props@[t as int] as int);
                assert(nv(nodes)[props@[t as int] as int] == xml_view(nodes@[props@[t as int] as int]));
                m = apply_mark_exec(m, &nodes[props[t]]);
                t += 1;
            }
            assert(pv.take(props@.len() as int) =~= pv);
            m
        },
    }
}

/// Append the HTML escape of `t`.
fn push_html_escaped(out: &mut Vec<char>, t: &Vec<char>)
    ensures
        final(out)@ == old(out)@ + html_escaped(t@),
{
    let mut i: usize = 0;
    while i < t.len()
        invariant
            i <= t@.len(),
            out@ == old(out)@ + html_escaped(t@.take(i as int)),
        decreases t@.len() - i,
    {
        let c = t[i];
        if c == '&' {
            extend_str(out, "&amp;");
        } else if c == '<' {
            extend_str(out, "&lt;");
        } else if c == '>' {
            extend_str(out, "&gt;");
        } else {
            out.push(c);
        }
        assert(t@.take(i + 1).drop_last() =~= t@.take(i as int));
        assert(t@.take(i + 1).last() == c);
        assert(out@ =~= old(out)@ + html_escaped(t@.take(i + 1)));
        i += 1;
    }
    assert(t@.take(t@.len() as int) =~= t@);
}

/// `wrap` computed.
fn wrap_exec(tag: &str, on: bool, s: Vec<char>) -> (r: Vec<char>)
    ensures
        r@ == wrap(tag@, on, s@),
{
    if on {
        let mut r: Vec<char> = Vec::new();
        extend_str(&mut r, "<");
        extend_str(&mut r, tag);
        extend_str(&mut r, ">");
        extend_chars(&mut r, &s);
        extend_str(&mut r, "</");
        extend_str(&mut r, tag);
        extend_str(&mut r, ">");
        r
    } else {
        s
    }
}

/// `run_parts` computed.
fn run_parts_exec(nodes: &Vec<XmlNode>, run: usize) -> (r: (Vec<char>, Vec<char>))
    requires
        run < nodes@.len(),
    ensures
        (r.0@, r.1@) == run_parts(nv(nodes), run as int),
{
    let kids = children_exec(nodes, run);
    let ghost kv = kids@.map_values(|k: usize| k as int);
    let mut text: Vec<char> = Vec::new();
    let mut br = false;
    let mut t: usize = 0;
    while t < kids.len()
        invariant
            t <= kids@.len(),
            kv == kids@.map_values(|k: usize| k as int),
            forall|q: int| 0 <= q < kids@.len() ==> kids@[q] < nodes@.len(),
            text@ == t_text(nv(nodes), kv.take(t as int)),
            br == has_br(nv(nodes), kv.take(t as int)),
        decreases kids@.len() - t,
    {
        let k = kids[t];
        assert(kv.take(t + 1).drop_last() =~= kv.take(t as int));
        assert(kv.take(t + 1).last() == k as int);
        assert(nv(nodes)[k as int] == xml_view(nodes@[k as int]));
        let n = &nodes[k];
        if is_named(n, "t") {
            match &n.text {
                Some(x) => {
                    extend_str(&mut text, x.as_str());
                },
                None => {
                    assert(text@ =~= text@ + Seq::<char>::empty());
                },
            }
        } else {
            assert(text@ =~= text@ + Seq::<char>::empty());
        }
        if is_named(n, "br") {
            br = true;
        }
        t += 1;
    }
    assert(kv.take(kids@.len() as int) =~= kv);
    if text.len() == 0 {
        let mut h: Vec<char> = Vec::new();
        if br {
            extend_str(&mut h, "<br/>");
        }
        (Vec::new(), h)
    } else {
        let m = run_marks_exec(nodes, run);
        let mut e: Vec<char> = Vec::new();
        push_html_escaped(&mut e, &text);
        let e = wrap_exec("code", m.4, e);
        let e = wrap_exec("s", m.3, e);
        let e = wrap_exec("u", m.2, e);
        let e = wrap_exec("em", m.1, e);
        let e = wrap_exec("strong", m.0, e);
        (text, e)
    }
}

/// `para_level` computed.
fn para_level_exec(nodes: &Vec<XmlNode>, p: usize) -> (r: Option<u8>)
    requires
        p < nodes@.len(),
    ensures
        match r {
            Some(n) => para_level(nv(nodes), p as int) == Some(n as nat),
            None => para_level(nv(nodes), p as int) is None,
        },
{
    let kids = children_exec(nodes, p);
    let pp = match first_named_exec(nodes, &kids, "pPr") {
        Some(x) => x,
        None => return None,
    };
    let pk = children_exec(nodes, pp);
    let st = match first_named_exec(nodes, &pk, "pStyle") {
        Some(x) => x,
        None => return None,
    };
    assert(nv(nodes)[st as int] == xml_view(nodes@[st as int]));
    match w_attr_exec(&nodes[st], "val") {
        None => None,
        Some(v) => parse_heading_style(v.as_str()),
    }
}

/// A paragraph of the document, captured.
pub struct Para {
    pub level: Option<u8>,
    pub text: String,
    pub html: String,
}

/// The view of a paragraph.
pub open spec fn para_view(p: Para) -> (Option<nat>, Seq<char>, Seq<char>) {
    (match p.level {
        Some(l) => Some(l as nat),
        None => None,
    }, p.text@, p.html@)
}

/// The views of paragraphs.
pub open spec fn para_views(v: Seq<Para>) -> Seq<(Option<nat>, Seq<char>, Seq<char>)> {
    v.map_values(|p: Para| para_view(p))
}

/// `para_of` computed.
fn para_exec(nodes: &Vec<XmlNode>, p: usize) -> (r: Para)
    requires
        p < nodes@.len(),
    ensures
        para_view(r) == para_of(nv(nodes), p as int),
{
    let kids = children_exec(nodes, p);
    let ghost kv = kids@.map_values(|k: usize| k as int);
    let mut text: Vec<char> = Vec::new();
    let mut html: Vec<char> = Vec::new();
    let mut t: usize = 0;
    while t < kids.len()
        invariant
            t <= kids@.len(),
            kv == kids@.map_values(|k: usize| k as int),
            forall|q: int| 0 <= q < kids@.len() ==> kids@[q] < nodes@.len(),
            (text@, html@) == runs_parts(nv(nodes), kv.take(t as int)),
        decreases kids@.len() - t,
    {
        let k = kids[t];
        assert(kv.take(t + 1).drop_last() =~= kv.take(t as int));
        assert(kv.take(t + 1).last() == k as int);
        assert(nv(nodes)[k as int] == xml_view(nodes@[k as int]));
        if is_named(&nodes[k], "r") {
            let (a, b) = run_parts_exec(nodes, k);
            extend_chars(&mut text, &a);
            extend_chars(&mut html, &b);
        }
        t += 1;
    }
    assert(kv.take(kids@.len() as int) =~= kv);
    let level = para_level_exec(nodes, p);
    let body = match level {
        Some(_) => String::new(),
        None => {
            let mut b: Vec<char> = Vec::new();
            extend_str(&mut b, "<p>");
            extend_chars(&mut b, &html);
            extend_str(&mut b, "</p>");
            string_of(&b)
        },
    };
    Para { level, text: string_of(&text), html: body }
}

/// The kept paragraphs of the document.
pub fn collect_paragraphs(nodes: &Vec<XmlNode>) -> (r: Vec<Para>)
    ensures
        para_views(r@) == paragraphs(nv(nodes)),
{
    let mut out: Vec<Para> = Vec::new();
    let mut k: usize = 0;
    while k < nodes.len()
        invariant
            k <= nodes@.len(),
            para_views(out@) == paras_upto(nv(nodes), k as int),
        decreases nodes@.len() - k,
    {
        assert(nv(nodes)[k as int] == xml_view(nodes@[k as int]));
        if is_named(&nodes[k], "p") {
            let para = para_exec(nodes, k);
            let blank = trim_chars(&chars_of(para.text.as_str())).len() == 0;
            if !(para.level.is_none() && blank) {
                let ghost before = para_views(out@);
                let ghost pv = para_view(para);
                out.push(para);
                assert(para_views(out@) =~= before.push(pv));
            }
        }
        k += 1;
    }
    out
}

/// How many paragraphs are level-one headings.
pub open spec fn h1_paras(ps: Seq<(Option<nat>, Seq<char>, Seq<char>)>) -> nat
    decreases ps.len(),
{
    if ps.len() == 0 {
        0
    } else {
        h1_paras(ps.drop_last()) + if ps.last().0 == Some(1nat) {
            1nat
        } else {
            0nat
        }
    }
}

/// A heading below level one.
pub open spec fn is_deeper(p: (Option<nat>, Seq<char>, Seq<char>)) -> bool {
    match p.0 {
        Some(l) => l > 1,
        None => false,
    }
}

/// Whether a heading deeper than level one follows the first paragraph.
pub open spec fn deeper_after_first(ps: Seq<(Option<nat>, Seq<char>, Seq<char>)>) -> bool {
    exists|j: int| 1 <= j < ps.len() && is_deeper(#[trigger] ps[j])
}

/// The opening level-one heading only names the project, and is left out
/// of the tree, when it is the one level-one heading and deeper headings
/// follow.
pub open spec fn skip_first_h1(ps: Seq<(Option<nat>, Seq<char>, Seq<char>)>) -> bool {
    h1_paras(ps) == 1 && ps.len() > 0 && ps[0].0 == Some(1nat) && deeper_after_first(ps)
}

/// The finished sections and the open one after reading the paragraphs:
/// each heading opens a section, body paragraphs extend the open section,
/// and body text before any section opens an `Intro` section at level one.
pub open spec fn docx_state(ps: Seq<(Option<nat>, Seq<char>, Seq<char>)>, skip: bool) -> (Seq<SectionView>, Option<SectionView>)
    decreases ps.len(),
{
    if ps.len() == 0 {
        (Seq::empty(), None)
    } else {
        let (done, cur) = docx_state(ps.drop_last(), skip);
        let p = ps.last();
        match p.0 {
            Some(l) => if skip && ps.len() == 1 {
                (done, cur)
            } else {
                (
                    opt_push(done, cur),
                    Some(SectionView { level: l, title: trim(p.1), body: Seq::empty(), synthetic: false }),
                )
            },
            None => match cur {
                Some(c) => (
                    done,
                    Some(SectionView { level: c.level, title: c.title, body: c.body + p.2, synthetic: c.synthetic }),
                ),
                None => (done, Some(SectionView { level: 1, title: "Intro"@, body: p.2, synthetic: true })),
            },
        }
    }
}

/// The sections of the paragraphs.
pub open spec fn docx_sections(ps: Seq<(Option<nat>, Seq<char>, Seq<char>)>) -> Seq<SectionView> {
    opt_push(docx_state(ps, skip_first_h1(ps)).0, docx_state(ps, skip_first_h1(ps)).1)
}

/// The bodies of some sections.
pub open spec fn bodies(secs: Seq<SectionView>) -> Seq<Seq<char>> {
    secs.map_values(|s: SectionView| s.body)
}

/// The imported tree of the paragraphs: each section takes the following
/// deeper sections as children.
pub open spec fn docx_forest(ps: Seq<(Option<nat>, Seq<char>, Seq<char>)>) -> Seq<crate::importer::markdown::NodeView> {
    forest(docx_sections(ps), bodies(docx_sections(ps)), 0, docx_sections(ps).len() as int)
}

/// The trimmed text of the first level-one heading.
pub open spec fn first_h1_title(ps: Seq<(Option<nat>, Seq<char>, Seq<char>)>) -> Option<Seq<char>>
    decreases ps.len(),
{
    if ps.len() == 0 {
        None
    } else if ps[0].0 == Some(1nat) {
        Some(trim(ps[0].1))
    } else {
        first_h1_title(ps.drop_first())
    }
}

/// Build the node tree of the paragraphs.
pub fn build_tree(paras: &Vec<Para>) -> (out: Vec<ImportNode>)
    ensures
        nodes_view(out@) == docx_forest(para_views(paras@)),
{
    let ghost pv = para_views(paras@);
    let mut h1: usize = 0;
    let mut deeper = false;
    let mut i: usize = 0;
    while i < paras.len()
        invariant
            i <= paras@.len(),
            pv == para_views(paras@),
            h1 <= i,
            h1 == h1_paras(pv.take(i as int)),
            deeper == (exists|j: int| 1 <= j < i && is_deeper(#[trigger] pv[j])),
        decreases paras@.len() - i,
    {
        assert(pv.take(i + 1).drop_last() =~= pv.take(i as int));
        assert(pv.take(i + 1).last() == pv[i as int]);
        assert(pv[i as int] == para_view(paras@[i as int]));
        match paras[i].level {
            Some(l) => {
                if l == 1 {
                    h1 += 1;
                }
                if i >= 1 && l > 1 {
                    deeper = true;
                }
            },
            None => {},
        }
        i += 1;
    }
    assert(pv.take(paras@.len() as int) =~= pv);
    let first_h1 = paras.len() > 0 && match paras[0].level {
        Some(l) => l == 1,
        None => false,
    };
    proof {
        if paras@.len() > 0 {
            assert(pv[0] == para_view(paras@[0]));
        }
    }
    let skip = h1 == 1 && first_h1 && deeper;
    assert(skip == skip_first_h1(pv));
    let mut done: Vec<Section> = Vec::new();
    let mut cur: Option<Section> = None;
    let mut k: usize = 0;
    while k < paras.len()
        invariant
            k <= paras@.len(),
            pv == para_views(paras@),
            skip == skip_first_h1(pv),
            (section_views(done@), match cur {
                Some(c) => Some(section_view(c)),
                None => None,
            }) == docx_state(pv.take(k as int), skip),
        decreases paras@.len() - k,
    {
        let p = &paras[k];
        assert(pv.take(k + 1).drop_last() =~= pv.take(k as int));
        assert(pv.take(k + 1).last() == pv[k as int]);
        assert(pv[k as int] == para_view(paras@[k as int]));
        match p.level {
            Some(l) => {
                if !(skip && k == 0) {
                    let ghost d0 = section_views(done@);
                    match cur {
                        Some(c) => {
                            done.push(c);
                            assert(section_views(done@) =~= d0.push(section_view(c)));
                        },
                        None => {},
                    }
                    let t = trim_chars(&chars_of(p.text.as_str()));
                    let ns = Section { level: l, title: string_of(&t), body_md: String::new(), synthetic: false };
                    assert(section_view(ns).body =~= Seq::<char>::empty());
                    cur = Some(ns);
                }
            },
            None => {
                match cur {
                    Some(c) => {
                        let mut b = c.body_md;
                        b.append(p.html.as_str());
                        cur = Some(Section { level: c.level, title: c.title, body_md: b, synthetic: c.synthetic });
                    },
                    None => {
                        cur = Some(Section { level: 1, title: String::from_str("Intro"), body_md: p.html.clone(), synthetic: true });
                    },
                }
            },
        }
        k += 1;
    }
    assert(pv.take(paras@.len() as int) =~= pv);
    let ghost d0 = section_views(done@);
    match cur {
        Some(c) => {
            done.push(c);
            assert(section_views(done@) =~= d0.push(section_view(c)));
        },
        None => {},
    }
    let mut htmls: Vec<String> = Vec::new();
    let mut j: usize = 0;
    while j < done.len()
        invariant
            j <= done@.len(),
            htmls@.len() == j,
            forall|t: int| 0 <= t < j ==> #[trigger] htmls@[t]@ == done@[t].body_md@,
        decreases done@.len() - j,
    {
        htmls.push(done[j].body_md.clone());
        j += 1;
    }
    assert(string_views(htmls@) =~= bodies(section_views(done@)));
    build_forest(&done, &htmls, 0, done.len())
}

/// `first_h1_title` computed.
fn first_h1_exec(paras: &Vec<Para>) -> (r: Option<String>)
    ensures
        opt_view(r) == first_h1_title(para_views(paras@)),
{
    let ghost pv = para_views(paras@);
    let mut i: usize = 0;
    assert(pv.skip(0) =~= pv);
    while i < paras.len()
        invariant
            i <= paras@.len(),
            pv == para_views(paras@),
            first_h1_title(pv.skip(i as int)) == first_h1_title(pv),
        decreases paras@.len() - i,
    {
        assert(pv.skip(i as int)[0] == para_view(paras@[i as int]));
        assert(pv.skip(i as int).drop_first() =~= pv.skip(i + 1));
        let is_h1 = match paras[i].level {
            Some(l) => l == 1,
            None => false,
        };
        if is_h1 {
            let t = trim_chars(&chars_of(paras[i].text.as_str()));
            return Some(string_of(&t));
        }
        i += 1;
    }
    assert(pv.skip(i as int) =~= Seq::<(Option<nat>, Seq<char>, Seq<char>)>::empty());
    None
}

/// The import tree of a parsed document part: the title of the first
/// level-one heading (else the file name hint) and the node tree.
pub fn import_nodes(nodes: &Vec<XmlNode>, filename_hint: &str) -> (t: ImportTree)
    ensures
        t.project_title@ == match first_h1_title(paragraphs(nv(nodes))) {
            Some(x) => x,
            None => filename_hint@,
        },
        nodes_view(t.nodes@) == docx_forest(paragraphs(nv(nodes))),
{
    let paras = collect_paragraphs(nodes);
    let ghost pv = para_views(paras@);
    let tree = build_tree(&paras);
    let title = first_h1_exec(&paras);
    let project_title = match title {
        Some(t) => t,
        None => String::from_str(filename_hint),
    };
    ImportTree { project_title, nodes: tree }
}

/// What a DOCX import yields for a payload: a failure when the document
/// part cannot be read or parsed, else the title of the first level-one
/// heading (or the hint) and the node tree.
pub open spec fn docx_import(bytes: Seq<u8>, hint: Seq<char>, r: AppResult<ImportTree>) -> bool {
    match docx_document_xml(bytes) {
        None => r matches Err(e) && (e is Invariant || e is Unexpected),
        Some(x) => match xml_parsed(x) {
            Err(m) => r matches Err(AppError::Invariant(msg)) && msg@ == "invalid DOCX XML: "@ + m,
            Ok(ns) => r matches Ok(t) && t.project_title@ == match first_h1_title(paragraphs(ns)) {
                Some(x) => x,
                None => hint,
            } && nodes_view(t.nodes@) == docx_forest(paragraphs(ns)),
        },
    }
}

/// Import a DOCX payload.
pub fn import(bytes: &[u8], filename_hint: &str) -> (r: AppResult<ImportTree>)
    ensures
        docx_import(bytes@, filename_hint@, r),
{
    let xml = match read_document_xml(bytes) {
        Ok(x) => x,
        Err(DocxReadError::NotZip(m)) => {
            let mut msg = String::from_str("DOCX is not a valid ZIP: ");
            msg.append(m.as_str());
            return Err(AppError::Invariant(msg));
        },
        Err(DocxReadError::MissingEntry) => {
            return Err(AppError::Invariant(String::from_str("DOCX missing word/document.xml entry")));
        },
        Err(DocxReadError::Unreadable(m)) => {
            return Err(AppError::Unexpected(m));
        },
    };
    match parse_xml(xml.as_str()) {
        Ok(nodes) => Ok(import_nodes(&nodes, filename_hint)),
        Err(m) => {
            let mut msg = String::from_str("invalid DOCX XML: ");
            msg.append(m.as_str());
            Err(AppError::Invariant(msg))
        },
    }
}

} // verus!
