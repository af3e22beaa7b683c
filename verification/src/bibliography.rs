//! Bibliography import: a BibTeX/BibLaTeX text is parsed by the `biblatex`
//! crate and every entry normalised to a key, a lower-case entry type and
//! a map of lower-case field names to cleaned values.
use vstd::prelude::*;
use vstd::string::*;

use biblatex::{Bibliography, ChunksExt};

use crate::error::{AppError, AppResult};
use crate::importer::ascii_lower_chars;
use crate::storage::citations::{FieldMap, UpsertEntry};
use crate::text::{ascii_lower_str, chars_of, is_whitespace, is_ws, push_char, replace_all, replace_all_exec, slice_chars, string_of, trim, trim_chars, trim_str};

verus! {

/// One entry as the parser hands it out: its key, the name of its entry
/// type, and its fields as `(name, verbatim value)` in field-name order.
#[derive(Debug, Clone)]
pub struct RawBibEntry {
    pub key: String,
    pub entry_type: String,
    pub fields: Vec<(String, String)>,
}

/// A raw entry as characters.
pub open spec fn raw_view(e: RawBibEntry) -> (Seq<char>, Seq<char>, Seq<(Seq<char>, Seq<char>)>) {
    (e.key@, e.entry_type@, e.fields@.map_values(|f: (String, String)| (f.0@, f.1@)))
}

/// Raw entries as characters.
pub open spec fn raw_views(v: Seq<RawBibEntry>) -> Seq<(Seq<char>, Seq<char>, Seq<(Seq<char>, Seq<char>)>)> {
    v.map_values(|e: RawBibEntry| raw_view(e))
}

/// What `biblatex` reads from a text: its entries (key, entry type name,
/// fields with their verbatim values, in field-name order), or the text
/// of the parse error.
pub uninterp spec fn bib_parsed(text: Seq<char>) -> Result<Seq<(Seq<char>, Seq<char>, Seq<(Seq<char>, Seq<char>)>)>, Seq<char>>;

/// `Bibliography::parse`, with each entry handed out as plain values
/// (`EntryType`'s `Display` name, `format_verbatim` of each field) and a
/// parse error as its `Display` text. The result is named by `bib_parsed`.
/// A malformed text is reported as an error; the parser's source was not
/// read far enough here to rule out a panic on some input.
#[verifier::external_body]
fn parse_bibliography(text: &str) -> (r: Result<Vec<RawBibEntry>, String>)
    ensures
        match r {
            Ok(v) => bib_parsed(text@) == Ok::<_, Seq<char>>(raw_views(v@)),
            Err(m) => bib_parsed(text@) == Err::<Seq<(Seq<char>, Seq<char>, Seq<(Seq<char>, Seq<char>)>)>, _>(m@),
        },
{
    match Bibliography::parse(text) {
        Ok(bib) => Ok(bib.iter().map(|e| RawBibEntry {
            key: e.key.clone(),
            entry_type: e.entry_type.to_string(),
            fields: e.fields.iter().map(|(n, c)| (n.clone(), c.format_verbatim())).collect(),
        }).collect()),
        Err(e) => Err(e.to_string()),
    }
}

/// Outer `{…}` pairs removed, repeatedly.
pub open spec fn strip_braces(s: Seq<char>) -> Seq<char>
    decreases s.len(),
{
    if s.len() >= 2 && s[0] == '{' && s.last() == '}' {
        strip_braces(s.subrange(1, s.len() - 1))
    } else {
        s
    }
}

/// One outer `"…"` pair removed.
pub open spec fn strip_quotes(s: Seq<char>) -> Seq<char> {
    if s.len() >= 2 && s[0] == '"' && s.last() == '"' {
        s.subrange(1, s.len() - 1)
    } else {
        s
    }
}

/// Escaped braces `\{` and `\}` turned into plain braces.
pub open spec fn unescape_braces(s: Seq<char>) -> Seq<char> {
    replace_all(replace_all(s, "\\{"@, "{"@), "\\}"@, "}"@)
}

/// Each run of whitespace replaced by one space; the flag says whether the
/// text ends in whitespace.
pub open spec fn collapse_ws(s: Seq<char>) -> (Seq<char>, bool)
    decreases s.len(),
{
    if s.len() == 0 {
        (Seq::empty(), false)
    } else {
        let (o, prev) = collapse_ws(s.drop_last());
        if is_ws(s.last()) {
            (if prev {
                o
            } else {
                o.push(' ')
            }, true)
        } else {
            (o.push(s.last()), false)
        }
    }
}

/// A field value cleaned of BibTeX-isms: trimmed, outer braces and quotes
/// removed, escaped braces unescaped, whitespace runs collapsed, trimmed
/// again.
pub open spec fn clean(raw: Seq<char>) -> Seq<char> {
    trim(collapse_ws(unescape_braces(strip_quotes(strip_braces(trim(raw))))).0)
}

/// Strip BibTeX-isms from a value (see `clean`).
pub fn clean_value(raw: &str) -> (r: String)
    ensures
        r@ == clean(raw@),
{
    let mut s = trim_str(raw);
    while s.len() >= 2 && s[0] == '{' && s[s.len() - 1] == '}'
        invariant
            strip_braces(s@) == strip_braces(trim(raw@)),
        decreases s@.len(),
    {
        s = slice_chars(&s, 1, s.len() - 1);
    }
    if s.len() >= 2 && s[0] == '"' && s[s.len() - 1] == '"' {
        s = slice_chars(&s, 1, s.len() - 1);
    }
    let ob = chars_of("\\{");
    let o = chars_of("{");
    let cb = chars_of("\\}");
    let c = chars_of("}");
    let s1 = replace_all_exec(&s, &ob, &o);
    let s2 = replace_all_exec(&s1, &cb, &c);
    assert(s2@ == unescape_braces(strip_quotes(strip_braces(trim(raw@)))));
    let mut out: Vec<char> = Vec::new();
    let mut prev_ws = false;
    let mut i: usize = 0;
    while i < s2.len()
        invariant
            i <= s2@.len(),
            (out@, prev_ws) == collapse_ws(s2@.take(i as int)),
        decreases s2@.len() - i,
    {
        let ch = s2[i];
        assert(s2@.take(i + 1).drop_last() =~= s2@.take(i as int));
        if is_whitespace(ch) {
            if !prev_ws {
                out.push(' ');
            }
            prev_ws = true;
        } else {
            out.push(ch);
            prev_ws = false;
        }
        i += 1;
    }
    assert(s2@.take(s2@.len() as int) =~= s2@);
    let t = trim_chars(&out);
    string_of(&t)
}

/// The fields of an entry: lower-cased names to cleaned values, later
/// fields replacing earlier ones of the same lower-cased name.
pub open spec fn fields_map(fields: Seq<(Seq<char>, Seq<char>)>) -> Map<Seq<char>, Seq<char>>
    decreases fields.len(),
{
    if fields.len() == 0 {
        Map::empty()
    } else {
        fields_map(fields.drop_last()).insert(ascii_lower_str(fields.last().0), clean(fields.last().1))
    }
}

/// The normalised form of one entry.
pub open spec fn normalised_entry(e: (Seq<char>, Seq<char>, Seq<(Seq<char>, Seq<char>)>)) -> (Seq<char>, Seq<char>, Map<Seq<char>, Seq<char>>) {
    (trim(e.0), ascii_lower_str(e.1), fields_map(e.2))
}

/// The kept entries, normalised, in order: those whose trimmed key is not
/// empty.
pub open spec fn kept_entries(raw: Seq<(Seq<char>, Seq<char>, Seq<(Seq<char>, Seq<char>)>)>) -> Seq<(Seq<char>, Seq<char>, Map<Seq<char>, Seq<char>>)>
    decreases raw.len(),
{
    if raw.len() == 0 {
        Seq::empty()
    } else if trim(raw.last().0).len() == 0 {
        kept_entries(raw.drop_last())
    } else {
        kept_entries(raw.drop_last()).push(normalised_entry(raw.last()))
    }
}

/// The number of entries skipped for a blank key.
pub open spec fn skipped_count(raw: Seq<(Seq<char>, Seq<char>, Seq<(Seq<char>, Seq<char>)>)>) -> nat
    decreases raw.len(),
{
    if raw.len() == 0 {
        0
    } else if trim(raw.last().0).len() == 0 {
        skipped_count(raw.drop_last()) + 1
    } else {
        skipped_count(raw.drop_last())
    }
}

/// The outcome of a parse: the normalised entries, and how many entries
/// were skipped because their key was blank.
#[derive(Debug, Default, Clone)]
pub struct ParseSummary {
    pub entries: Vec<UpsertEntry>,
    pub skipped_entries: usize,
}

/// A stored entry as characters and a map.
pub open spec fn upsert_view(e: UpsertEntry) -> (Seq<char>, Seq<char>, Map<Seq<char>, Seq<char>>) {
    (e.key@, e.entry_type@, e.fields@)
}

/// The entries of a summary as characters and maps.
pub open spec fn summary_entries(s: ParseSummary) -> Seq<(Seq<char>, Seq<char>, Map<Seq<char>, Seq<char>>)> {
    s.entries@.map_values(|e: UpsertEntry| upsert_view(e))
}

/// Normalise parsed entries: entries with a blank key are counted and
/// dropped; the others keep their trimmed key, get a lower-case entry type
/// and their fields under lower-case names with cleaned values.
pub fn normalise(raw: Vec<RawBibEntry>) -> (r: ParseSummary)
    ensures
        summary_entries(r) == kept_entries(raw_views(raw@)),
        r.skipped_entries == skipped_count(raw_views(raw@)),
{
    let ghost rv = raw_views(raw@);
    let mut entries: Vec<UpsertEntry> = Vec::new();
    let mut skipped: usize = 0;
    let mut i: usize = 0;
    while i < raw.len()
        invariant
            i <= raw@.len(),
            rv == raw_views(raw@),
            skipped <= i,
            entries@.map_values(|e: UpsertEntry| upsert_view(e)) == kept_entries(rv.take(i as int)),
            skipped == skipped_count(rv.take(i as int)),
        decreases raw@.len() - i,
    {
        let e = &raw[i];
        let ghost ev = rv[i as int];
        assert(rv.take(i + 1).drop_last() =~= rv.take(i as int));
        assert(rv.take(i + 1).last() == ev);
        assert(ev == raw_view(raw@[i as int]));
        let key = trim_str(e.key.as_str());
        if key.len() == 0 {
            skipped += 1;
        } else {
            let et = ascii_lower_chars(&chars_of(e.entry_type.as_str()));
            let mut fields = FieldMap::new();
            let ghost fv = ev.2;
            let mut j: usize = 0;
            while j < e.fields.len()
                invariant
                    j <= e.fields@.len(),
                    fv == e.fields@.map_values(|f: (String, String)| (f.0@, f.1@)),
                    fields@ == fields_map(fv.take(j as int)),
                decreases e.fields@.len() - j,
            {
                let name = ascii_lower_chars(&chars_of(e.fields[j].0.as_str()));
                let value = clean_value(e.fields[j].1.as_str());
                fields.insert(string_of(&name), value);
                assert(fv.take(j + 1).drop_last() =~= fv.take(j as int));
                assert(fv[j as int] == (e.fields@[j as int].0@, e.fields@[j as int].1@));
                j += 1;
            }
            assert(fv.take(e.fields@.len() as int) =~= fv);
            let ghost before = entries@.map_values(|x: UpsertEntry| upsert_view(x));
            entries.push(UpsertEntry { key: string_of(&key), entry_type: string_of(&et), fields });
            assert(entries@.map_values(|x: UpsertEntry| upsert_view(x)) =~= before.push(
                normalised_entry(ev),
            ));
        }
        i += 1;
    }
    assert(rv.take(raw@.len() as int) =~= rv);
    ParseSummary { entries, skipped_entries: skipped }
}

/// Parses bibliographies.
pub trait BibliographyService {
    /// Parse a BibTeX text into normalised entries; fails only when the
    /// text cannot be parsed at all.
    fn parse(&self, bib_text: &str) -> AppResult<ParseSummary>;
}

/// The bibliography service of the desktop app, backed by `biblatex`.
#[derive(Debug, Default, Clone, Copy)]
pub struct LocalBibliographyService;

impl BibliographyService for LocalBibliographyService {
    /// On a text `biblatex` reads, the normalised summary of its entries;
    /// otherwise an `Invariant` error quoting the parse error.
    fn parse(&self, bib_text: &str) -> (r: AppResult<ParseSummary>)
        ensures
            match bib_parsed(bib_text@) {
                Ok(v) => r matches Ok(s) && summary_entries(s) == kept_entries(v)
                    && s.skipped_entries == skipped_count(v),
                Err(m) => r matches Err(AppError::Invariant(msg)) && msg@ == "invalid BibTeX input: "@ + m,
            },
    {
        match parse_bibliography(bib_text) {
            Ok(raw) => Ok(normalise(raw)),
            Err(m) => {
                let mut msg = String::from_str("invalid BibTeX input: ");
                msg.append(m.as_str());
                Err(AppError::Invariant(msg))
            },
        }
    }
}

} // verus!
