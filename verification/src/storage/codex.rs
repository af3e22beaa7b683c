//! Codex rules that do not touch the database: how a partial update merges
//! into an entry, and the `LIKE` pattern a codex search uses.
use vstd::prelude::*;
use vstd::string::*;

use crate::domain::{CodexEntry, CodexKind};
use crate::text::{chars_of, push_char, trim, trim_str, string_of};

verus! {

/// A partial update of a codex entry: each field given replaces the
/// entry's.
#[derive(Debug, Clone, Default)]
pub struct CodexUpdate {
    pub name: Option<String>,
    pub kind: Option<CodexKind>,
    pub body: Option<String>,
    pub tags: Option<Vec<String>>,
}

/// The name after an update: a given name, trimmed, unless it is blank.
pub open spec fn updated_name(prev: Seq<char>, given: Option<Seq<char>>) -> Seq<char> {
    match given {
        Some(n) => if trim(n).len() > 0 {
            trim(n)
        } else {
            prev
        },
        None => prev,
    }
}

/// The body after an update: a blank body given clears it.
pub open spec fn updated_body(prev: Option<Seq<char>>, given: Option<Seq<char>>) -> Option<Seq<char>> {
    match given {
        Some(b) => if trim(b).len() == 0 {
            None
        } else {
            Some(b)
        },
        None => prev,
    }
}

/// The characters of an optional string.
pub open spec fn opt_chars(o: Option<String>) -> Option<Seq<char>> {
    match o {
        Some(s) => Some(s@),
        None => None,
    }
}

/// Merge `patch` into `existing`, stamped `now`: fields not given are
/// kept; a blank name keeps the old one; a blank body clears the body.
pub fn apply_codex_update(existing: CodexEntry, patch: CodexUpdate, now: i64) -> (r: CodexEntry)
    ensures
        r.id == existing.id,
        r.project_id == existing.project_id,
        r.created_at == existing.created_at,
        r.updated_at == now,
        r.name@ == updated_name(existing.name@, opt_chars(patch.name)),
        r.kind == match patch.kind {
            Some(k) => k,
            None => existing.kind,
        },
        opt_chars(r.body) == updated_body(opt_chars(existing.body), opt_chars(patch.body)),
        r.tags@ == match patch.tags {
            Some(t) => t@,
            None => existing.tags@,
        },
{
    let name = match patch.name {
        Some(n) => {
            let t = trim_str(n.as_str());
            if t.len() > 0 {
                string_of(&t)
            } else {
                existing.name
            }
        },
        None => existing.name,
    };
    let kind = match patch.kind {
        Some(k) => k,
        None => existing.kind,
    };
    let body = match patch.body {
        Some(b) => {
            if trim_str(b.as_str()).len() == 0 {
                None
            } else {
                Some(b)
            }
        },
        None => existing.body,
    };
    let tags = match patch.tags {
        Some(t) => t,
        None => existing.tags,
    };
    CodexEntry {
        id: existing.id,
        project_id: existing.project_id,
        kind,
        name,
        body,
        tags,
        created_at: existing.created_at,
        updated_at: now,
    }
}

/// `LIKE` escaping of one character: `%` and `_` get a backslash.
pub open spec fn like_char(c: char) -> Seq<char> {
    if c == '%' || c == '_' {
        seq!['\\', c]
    } else {
        seq![c]
    }
}

/// `LIKE` escaping of a text.
pub open spec fn like_escaped(s: Seq<char>) -> Seq<char>
    decreases s.len(),
{
    if s.len() == 0 {
        Seq::empty()
    } else {
        like_escaped(s.drop_last()) + like_char(s.last())
    }
}

/// The pattern a codex search matches names, bodies and tags against:
/// everything for a blank query, else the trimmed query, escaped, between
/// `%` wildcards.
pub fn codex_like_pattern(query: &str) -> (r: String)
    ensures
        r@ == if trim(query@).len() == 0 {
            seq!['%']
        } else {
            seq!['%'] + like_escaped(trim(query@)) + seq!['%']
        },
{
    let q = trim_str(query);
    let mut out = String::new();
    push_char(&mut out, '%');
    if q.len() == 0 {
        return out;
    }
    let mut i: usize = 0;
    while i < q.len()
        invariant
            i <= q@.len(),
            q@ == trim(query@),
            out@ == seq!['%'] + like_escaped(q@.take(i as int)),
        decreases q@.len() - i,
    {
        let c = q[i];
        assert(q@.take(i + 1).drop_last() =~= q@.take(i as int));
        let ghost before = out@;
        if c == '%' || c == '_' {
            push_char(&mut out, '\\');
        }
        push_char(&mut out, c);
        assert(out@ =~= before + like_char(c));
        i += 1;
    }
    assert(q@.take(q@.len() as int) =~= q@);
    push_char(&mut out, '%');
    out
}

} // verus!
