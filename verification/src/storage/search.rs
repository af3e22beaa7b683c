//! Full-text search query building and HTML escaping of seeded synopses.
use vstd::prelude::*;
use vstd::string::*;

use crate::text::{chars_of, push_char};

verus! {

/// One character of a quoted FTS5 phrase: a double quote is doubled.
pub open spec fn phrase_char(c: char) -> Seq<char> {
    if c == '"' {
        seq!['"', '"']
    } else {
        seq![c]
    }
}

/// The characters of a text inside an FTS5 phrase.
pub open spec fn phrase_body(s: Seq<char>) -> Seq<char>
    decreases s.len(),
{
    if s.len() == 0 {
        Seq::empty()
    } else {
        phrase_body(s.drop_last()) + phrase_char(s.last())
    }
}

/// Quote the user's query as one FTS5 phrase, so its quotes and operators
/// are matched literally.
pub fn build_match_expr(raw: &str) -> (r: String)
    ensures
        r@ == seq!['"'] + phrase_body(raw@) + seq!['"'],
{
    let v = chars_of(raw);
    let mut out = String::new();
    push_char(&mut out, '"');
    let mut i: usize = 0;
    while i < v.len()
        invariant
            i <= v@.len(),
            v@ == raw@,
            out@ == seq!['"'] + phrase_body(v@.take(i as int)),
        decreases v@.len() - i,
    {
        let c = v[i];
        assert(v@.take(i + 1).drop_last() =~= v@.take(i as int));
        if c == '"' {
            push_char(&mut out, '"');
            push_char(&mut out, '"');
        } else {
            push_char(&mut out, c);
        }
        assert(out@ =~= seq!['"'] + phrase_body(v@.take(i + 1)));
        i += 1;
    }
    assert(v@.take(v@.len() as int) =~= v@);
    push_char(&mut out, '"');
    out
}

/// HTML escaping of one character (`&`, `<`, `>`, `"`, `'`).
pub open spec fn html_char(c: char) -> Seq<char> {
    if c == '&' {
        "&amp;"@
    } else if c == '<' {
        "&lt;"@
    } else if c == '>' {
        "&gt;"@
    } else if c == '"' {
        "&quot;"@
    } else if c == '\'' {
        "&#39;"@
    } else {
        seq![c]
    }
}

/// HTML escaping of a text.
pub open spec fn html_escaped(s: Seq<char>) -> Seq<char>
    decreases s.len(),
{
    if s.len() == 0 {
        Seq::empty()
    } else {
        html_escaped(s.drop_last()) + html_char(s.last())
    }
}

/// Escape text for HTML content.
pub fn escape_html(s: &str) -> (r: String)
    ensures
        r@ == html_escaped(s@),
{
    let v = chars_of(s);
    let mut out = String::new();
    let mut i: usize = 0;
    while i < v.len()
        invariant
            i <= v@.len(),
            v@ == s@,
            out@ == html_escaped(v@.take(i as int)),
        decreases v@.len() - i,
    {
        let c = v[i];
        assert(v@.take(i + 1).drop_last() =~= v@.take(i as int));
        let ghost before = out@;
        if c == '&' {
            out.append("&amp;");
        } else if c == '<' {
            out.append("&lt;");
        } else if c == '>' {
            out.append("&gt;");
        } else if c == '"' {
            out.append("&quot;");
        } else if c == '\'' {
            out.append("&#39;");
        } else {
            push_char(&mut out, c);
            assert(out@ =~= before + seq![c]);
        }
        i += 1;
    }
    assert(v@.take(v@.len() as int) =~= v@);
    out
}

/// The seed content of a template slot: its synopsis in a paragraph,
/// escaped, when it is not blank.
pub open spec fn seed_content(synopsis: Option<Seq<char>>) -> Option<Seq<char>> {
    match synopsis {
        Some(s) => if crate::text::trim(s).len() > 0 {
            Some("<p>"@ + html_escaped(s) + "</p>"@)
        } else {
            None
        },
        None => None,
    }
}

/// The seed content of a template slot.
pub fn seed_content_exec(synopsis: &Option<String>) -> (r: Option<String>)
    ensures
        match r {
            Some(c) => seed_content(crate::ai_validators::opt_view(*synopsis)) == Some(c@),
            None => seed_content(crate::ai_validators::opt_view(*synopsis)) is None,
        },
{
    match synopsis {
        Some(s) => {
            if crate::text::trim_str(s.as_str()).len() > 0 {
                let mut c = String::from_str("<p>");
                let e = escape_html(s.as_str());
                c.append(e.as_str());
                c.append("</p>");
                Some(c)
            } else {
                None
            }
        },
        None => None,
    }
}

} // verus!
