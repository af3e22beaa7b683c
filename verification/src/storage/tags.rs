//! The set a document's tags or label ids are replaced with: each entry
//! trimmed, blank ones dropped, repeats dropped (first one kept), in the
//! order given. Tags are compared case-sensitively.
use vstd::prelude::*;
use vstd::string::*;

use crate::segments::views;
use crate::text::{chars_eq, string_of, string_views, trim, trim_str};

verus! {

/// One entry folded into the entries kept so far.
pub open spec fn keep_entry(prev: Seq<Seq<char>>, raw: Seq<char>) -> Seq<Seq<char>> {
    if trim(raw).len() == 0 || prev.contains(trim(raw)) {
        prev
    } else {
        prev.push(trim(raw))
    }
}

/// The entries kept from a list.
pub open spec fn kept_entries(s: Seq<Seq<char>>) -> Seq<Seq<char>>
    decreases s.len(),
{
    if s.len() == 0 {
        Seq::empty()
    } else {
        keep_entry(kept_entries(s.drop_last()), s.last())
    }
}

/// Whether `t` is among `seen`.
fn seen_before(seen: &Vec<Vec<char>>, t: &Vec<char>) -> (r: bool)
    ensures
        r == views(seen@).contains(t@),
{
    let mut k: usize = 0;
    while k < seen.len()
        invariant
            k <= seen@.len(),
            forall|j: int| 0 <= j < k ==> seen@[j]@ != t@,
        decreases seen@.len() - k,
    {
        if chars_eq(&seen[k], t) {
            assert(views(seen@)[k as int] == t@);
            return true;
        }
        k += 1;
    }
    proof {
        if views(seen@).contains(t@) {
            let j = choose|j: int| 0 <= j < views(seen@).len() && views(seen@)[j] == t@;
            assert(seen@[j]@ == t@);
        }
    }
    false
}

/// The trimmed, non-blank, first-seen entries of `items`, in order.
pub fn distinct_trimmed(items: &[String]) -> (r: Vec<String>)
    ensures
        string_views(r@) == kept_entries(string_views(items@)),
{
    let ghost all = string_views(items@);
    let mut seen: Vec<Vec<char>> = Vec::new();
    let mut out: Vec<String> = Vec::new();
    let mut i: usize = 0;
    while i < items.len()
        invariant
            i <= items@.len(),
            all == string_views(items@),
            views(seen@) == kept_entries(all.take(i as int)),
            string_views(out@) == views(seen@),
        decreases items@.len() - i,
    {
        let t = trim_str(items[i].as_str());
        proof {
            assert(all.take(i + 1).drop_last() =~= all.take(i as int));
            assert(all.take(i + 1).last() == items@[i as int]@);
        }
        if t.len() > 0 && !seen_before(&seen, &t) {
            let ghost s0 = views(seen@);
            let ghost o0 = string_views(out@);
            out.push(string_of(&t));
            seen.push(t);
            assert(views(seen@) =~= s0.push(trim(items@[i as int]@)));
            assert(string_views(out@) =~= o0.push(trim(items@[i as int]@)));
        }
        i += 1;
    }
    assert(all.take(items@.len() as int) =~= all);
    out
}

} // verus!
