//! Format-agnostic compile passes applied to the document set before any
//! renderer runs: dropping research material, find&replace and
//! front/back-matter reordering.
use vstd::prelude::*;
use vstd::string::*;

use crate::domain::DocNode;
use crate::exporter::config::FindReplaceRule;
use crate::text::{chars_eq, chars_of, replace_all, replace_all_exec, string_of};

verus! {

/// Index of the last document with id `id` among the first `k`.
pub open spec fn last_with_id(docs: Seq<DocNode>, id: Seq<char>, k: int) -> Option<int>
    decreases k,
{
    if k <= 0 {
        None
    } else if docs[k - 1].id@ == id {
        Some(k - 1)
    } else {
        last_with_id(docs, id, k - 1)
    }
}

/// Whether the document with id `id` lies in a research subtree: it, or an
/// ancestor reached through at most `fuel` parent links, carries the flag.
/// Ids resolve to the last document that has them.
pub open spec fn in_research(docs: Seq<DocNode>, id: Seq<char>, fuel: nat) -> bool
    decreases fuel,
{
    if fuel == 0 {
        false
    } else {
        match last_with_id(docs, id, docs.len() as int) {
            None => false,
            Some(i) => docs[i].is_research || match docs[i].parent_id {
                Some(p) => in_research(docs, p@, (fuel - 1) as nat),
                None => false,
            },
        }
    }
}

/// Documents kept by `strip_research` among the first `k`.
pub open spec fn kept_upto(docs: Seq<DocNode>, k: int) -> Seq<DocNode>
    decreases k,
{
    if k <= 0 {
        Seq::empty()
    } else if in_research(docs, docs[k - 1].id@, (docs.len() + 1) as nat) {
        kept_upto(docs, k - 1)
    } else {
        kept_upto(docs, k - 1).push(docs[k - 1])
    }
}

/// Exec lookup of the last document with a given id.
fn last_with_id_exec(docs: &Vec<DocNode>, id: &Vec<char>) -> (r: Option<usize>)
    ensures
        r matches Some(i) ==> i < docs@.len() && last_with_id(docs@, id@, docs@.len() as int)
            == Some(i as int),
        r is None ==> last_with_id(docs@, id@, docs@.len() as int) is None,
{
    let mut k = docs.len();
    while k > 0
        invariant
            k <= docs.len(),
            last_with_id(docs@, id@, docs@.len() as int) == last_with_id(docs@, id@, k as int),
        decreases k,
    {
        let cand = chars_of(docs[k - 1].id.as_str());
        if chars_eq(&cand, id) {
            return Some(k - 1);
        }
        k -= 1;
    }
    None
}

/// Exec version of `in_research`.
fn in_research_exec(docs: &Vec<DocNode>, id: &Vec<char>, fuel: usize) -> (r: bool)
    ensures
        r == in_research(docs@, id@, fuel as nat),
    decreases fuel,
{
    if fuel == 0 {
        return false;
    }
    match last_with_id_exec(docs, id) {
        None => false,
        Some(i) => {
            if docs[i].is_research {
                true
            } else {
                match &docs[i].parent_id {
                    Some(p) => {
                        let pv = chars_of(p.as_str());
                        in_research_exec(docs, &pv, fuel - 1)
                    },
                    None => false,
                }
            }
        },
    }
}

/// Remove research documents (`is_research`) and every descendant of one:
/// a document is dropped if it carries the flag or an ancestor does.
pub fn strip_research(documents: Vec<DocNode>) -> (out: Vec<DocNode>)
    requires
        documents@.len() < usize::MAX,
    ensures
        out@ == kept_upto(documents@, documents@.len() as int),
{
    let n = documents.len();
    let mut flags: Vec<bool> = Vec::new();
    let mut k: usize = 0;
    while k < n
        invariant
            n == documents@.len() < usize::MAX,
            k <= n,
            flags@.len() == k,
            forall|j: int|
                0 <= j < k ==> flags@[j] == in_research(
                    documents@,
                    documents@[j].id@,
                    (n + 1) as nat,
                ),
        decreases n - k,
    {
        let idv = chars_of(documents[k].id.as_str());
        let f = in_research_exec(&documents, &idv, n + 1);
        flags.push(f);
        k += 1;
    }
    let mut rest = documents;
    let ghost all = rest@;
    let mut tmp: Vec<DocNode> = Vec::new();
    let mut j = n;
    while j > 0
        invariant
            j <= n,
            n == all.len(),
            rest@ == all.take(j as int),
            tmp@ == all.skip(j as int).reverse(),
        decreases j,
    {
        let d = rest.pop().unwrap();
        proof {
            assert(all.take(j as int).drop_last() =~= all.take(j - 1));
            assert(tmp@.push(d) =~= all.skip(j - 1).reverse());
        }
        tmp.push(d);
        j -= 1;
    }
    let mut out: Vec<DocNode> = Vec::new();
    let mut m: usize = 0;
    while m < n
        invariant
            m <= n,
            n == all.len(),
            flags@.len() == n,
            forall|t: int|
                0 <= t < n ==> flags@[t] == in_research(all, all[t].id@, (n + 1) as nat),
            tmp@ == all.skip(m as int).reverse(),
            out@ == kept_upto(all, m as int),
        decreases n - m,
    {
        let d = tmp.pop().unwrap();
        proof {
            assert(d == all[m as int]);
            assert(tmp@ =~= all.skip(m + 1).reverse());
        }
        if !flags[m] {
            out.push(d);
        }
        m += 1;
    }
    out
}

/// Position offset that moves front matter before the body.
pub const FRONT_OFFSET: i64 = -1_000_000;

/// Position offset that moves back matter after the body.
pub const BACK_OFFSET: i64 = 1_000_000;

/// Position of `d` after front/back-matter reordering: only top-level
/// documents move, front matter by `FRONT_OFFSET`, back matter by
/// `BACK_OFFSET` (front wins when both flags are set).
pub open spec fn reordered_position(d: DocNode) -> int {
    if d.parent_id is Some {
        d.position as int
    } else if d.is_front_matter {
        d.position + FRONT_OFFSET
    } else if d.is_back_matter {
        d.position + BACK_OFFSET
    } else {
        d.position as int
    }
}

/// Reorder so front-matter top-level documents compile first and back
/// matter last, by shifting root positions into three bands. Nested
/// documents keep their positions, so subtrees stay intact.
pub fn reorder_matter(documents: &mut Vec<DocNode>)
    requires
        forall|i: int|
            0 <= i < old(documents)@.len() ==> i64::MIN <= #[trigger] reordered_position(
                old(documents)@[i],
            ) <= i64::MAX,
    ensures
        final(documents)@.len() == old(documents)@.len(),
        forall|i: int|
            #![trigger final(documents)@[i]]
            0 <= i < final(documents)@.len() ==> final(documents)@[i] == (DocNode {
                position: reordered_position(old(documents)@[i]) as i64,
                ..old(documents)@[i]
            }),
{
    let mut i: usize = 0;
    while i < documents.len()
        invariant
            i <= documents@.len(),
            documents@.len() == old(documents)@.len(),
            forall|j: int|
                0 <= j < old(documents)@.len() ==> i64::MIN <= #[trigger] reordered_position(
                    old(documents)@[j],
                ) <= i64::MAX,
            forall|j: int|
                #![trigger documents@[j]]
                0 <= j < i ==> documents@[j] == (DocNode {
                    position: reordered_position(old(documents)@[j]) as i64,
                    ..old(documents)@[j]
                }),
            forall|j: int| #![trigger documents@[j]] i <= j < documents@.len() ==> documents@[j] == old(documents)@[j],
        decreases documents@.len() - i,
    {
        assert(i64::MIN <= reordered_position(old(documents)@[i as int]) <= i64::MAX);
        if documents[i].parent_id.is_none() {
            if documents[i].is_front_matter {
                documents[i].position = documents[i].position + FRONT_OFFSET;
            } else if documents[i].is_back_matter {
                documents[i].position = documents[i].position + BACK_OFFSET;
            }
        }
        i += 1;
    }
}

/// Content of a document after applying the find&replace rules in order;
/// rules with an empty pattern are ignored.
pub open spec fn replaced_with_rules(html: Seq<char>, rules: Seq<FindReplaceRule>) -> Seq<char>
    decreases rules.len(),
{
    if rules.len() == 0 {
        html
    } else {
        let prev = replaced_with_rules(html, rules.drop_last());
        let r = rules.last();
        if r.pattern@.len() == 0 {
            prev
        } else {
            replace_all(prev, r.pattern@, r.replacement@)
        }
    }
}

/// `after` is `before` with its content rewritten by the rules.
pub open spec fn rules_applied(before: DocNode, after: DocNode, rules: Seq<FindReplaceRule>) -> bool {
    &&& after == DocNode { content: after.content, ..before }
    &&& match before.content {
        Some(h) => after.content matches Some(a) && a@ == replaced_with_rules(h@, rules),
        None => after.content is None,
    }
}

/// Apply the rules, in order, to one content text.
fn apply_rules(html: &str, rules: &[FindReplaceRule]) -> (out: String)
    ensures
        out@ == replaced_with_rules(html@, rules@),
{
    let mut cur = chars_of(html);
    let mut k: usize = 0;
    while k < rules.len()
        invariant
            k <= rules@.len(),
            cur@ == replaced_with_rules(html@, rules@.take(k as int)),
        decreases rules@.len() - k,
    {
        assert(rules@.take(k + 1).drop_last() =~= rules@.take(k as int));
        let pat = chars_of(rules[k].pattern.as_str());
        if pat.len() > 0 {
            let rep = chars_of(rules[k].replacement.as_str());
            cur = replace_all_exec(&cur, &pat, &rep);
        }
        k += 1;
    }
    assert(rules@.take(rules@.len() as int) =~= rules@);
    string_of(&cur)
}

/// Apply compile find&replace rules to each document's content: literal
/// (non-regex) replacement of every occurrence, rule by rule in order;
/// rules with an empty pattern are ignored. Other fields are untouched.
pub fn apply_find_replace(documents: &mut Vec<DocNode>, rules: &[FindReplaceRule])
    ensures
        final(documents)@.len() == old(documents)@.len(),
        forall|i: int|
            #![trigger final(documents)@[i]]
            0 <= i < final(documents)@.len() ==> rules_applied(
                old(documents)@[i],
                final(documents)@[i],
                rules@,
            ),
{
    let mut i: usize = 0;
    while i < documents.len()
        invariant
            i <= documents@.len(),
            documents@.len() == old(documents)@.len(),
            forall|j: int|
                #![trigger documents@[j]]
                0 <= j < i ==> rules_applied(old(documents)@[j], documents@[j], rules@),
            forall|j: int|
                #![trigger documents@[j]]
                i <= j < documents@.len() ==> documents@[j] == old(documents)@[j],
        decreases documents@.len() - i,
    {
        let next = match &documents[i].content {
            Some(h) => Some(apply_rules(h.as_str(), rules)),
            None => None,
        };
        if next.is_some() {
            documents[i].content = next;
        }
        i += 1;
    }
}

} // verus!
