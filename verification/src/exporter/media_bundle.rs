//! Media payload passed into the export pipeline, pre-resolved by the
//! caller so renderers need no handle on media storage; and the scan for
//! `data-media-id` references in editor HTML.
use vstd::prelude::*;
use vstd::string::*;

use crate::text::{
    chars_eq, chars_of, find_from, find_from_exec, lemma_find_from_occurs, slice_chars, string_of,
    string_views,
};

verus! {

/// One stored asset: id, mime type and bytes.
#[derive(Debug)]
pub struct MediaEntry {
    pub id: String,
    pub mime: String,
    pub bytes: Vec<u8>,
}

impl Clone for MediaEntry {
    fn clone(&self) -> (r: Self)
        ensures
            r.id@ == self.id@,
            r.mime@ == self.mime@,
            r.bytes@ == self.bytes@,
    {
        MediaEntry { id: self.id.clone(), mime: self.mime.clone(), bytes: self.bytes.clone() }
    }
}

/// `media_id -> (mime, bytes)`. Ids are unique; inserting an existing id
/// replaces its entry in place, otherwise entries keep insertion order.
#[derive(Debug)]
pub struct MediaBundle {
    entries: Vec<MediaEntry>,
}

/// Ids of the entries are pairwise distinct.
pub open spec fn unique_ids(es: Seq<MediaEntry>) -> bool {
    forall|i: int, j: int| 0 <= i < es.len() && 0 <= j < es.len() && i != j ==> es[i].id@ != es[j].id@
}

/// The map an entry list denotes.
pub open spec fn entries_map(es: Seq<MediaEntry>) -> Map<Seq<char>, (Seq<char>, Seq<u8>)>
    decreases es.len(),
{
    if es.len() == 0 {
        Map::empty()
    } else {
        entries_map(es.drop_last()).insert(es.last().id@, (es.last().mime@, es.last().bytes@))
    }
}

/// With distinct ids, the map holds exactly the entries.
proof fn lemma_entries_map(es: Seq<MediaEntry>)
    requires
        unique_ids(es),
    ensures
        forall|k: Seq<char>|
            #![trigger entries_map(es).contains_key(k)]
            entries_map(es).contains_key(k) <==> exists|j: int| 0 <= j < es.len() && es[j].id@ == k,
        forall|j: int|
            #![trigger es[j]]
            0 <= j < es.len() ==> entries_map(es).contains_key(es[j].id@) && entries_map(es)[es[j].id@]
                == (es[j].mime@, es[j].bytes@),
    decreases es.len(),
{
    if es.len() > 0 {
        let p = es.drop_last();
        assert(unique_ids(p));
        lemma_entries_map(p);
        assert forall|k: Seq<char>| #![trigger entries_map(es).contains_key(k)]
            entries_map(es).contains_key(k) <==> exists|j: int| 0 <= j < es.len() && es[j].id@ == k by {
            if entries_map(es).contains_key(k) && k != es.last().id@ {
                assert(entries_map(p).contains_key(k));
                let j = choose|j: int| 0 <= j < p.len() && p[j].id@ == k;
                assert(es[j] == p[j]);
                assert(0 <= j < es.len() && es[j].id@ == k);
            }
            if entries_map(es).contains_key(k) && k == es.last().id@ {
                assert(es[es.len() - 1].id@ == k);
            }
            if exists|j: int| 0 <= j < es.len() && es[j].id@ == k {
                let j = choose|j: int| 0 <= j < es.len() && es[j].id@ == k;
                if j < es.len() - 1 {
                    assert(p[j] == es[j]);
                }
            }
        }
        assert forall|j: int| #![trigger es[j]] 0 <= j < es.len() implies entries_map(es).contains_key(
            es[j].id@,
        ) && entries_map(es)[es[j].id@] == (es[j].mime@, es[j].bytes@) by {
            if j < es.len() - 1 {
                assert(p[j] == es[j]);
                assert(es[j].id@ != es[es.len() - 1].id@);
            }
        }
    }
}

/// Replacing the entry at `j` by one with the same id updates the map.
proof fn lemma_entries_map_update(es: Seq<MediaEntry>, j: int, e: MediaEntry)
    requires
        unique_ids(es),
        0 <= j < es.len(),
        es[j].id@ == e.id@,
    ensures
        entries_map(es.update(j, e)) == entries_map(es).insert(e.id@, (e.mime@, e.bytes@)),
    decreases es.len(),
{
    let u = es.update(j, e);
    if j == es.len() - 1 {
        assert(u.drop_last() =~= es.drop_last());
        assert(entries_map(u) =~= entries_map(es).insert(e.id@, (e.mime@, e.bytes@)));
    } else {
        let p = es.drop_last();
        assert(unique_ids(p));
        lemma_entries_map_update(p, j, e);
        assert(u.drop_last() =~= p.update(j, e));
        assert(es.last().id@ != e.id@) by {
            assert(es[j].id@ != es[es.len() - 1].id@);
        }
        assert(entries_map(u) =~= entries_map(es).insert(e.id@, (e.mime@, e.bytes@)));
    }
}

impl Clone for MediaBundle {
    fn clone(&self) -> (r: Self)
        ensures
            r.view() == self.view(),
            r.order() == self.order(),
    {
        proof {
            use_type_invariant(self);
        }
        let mut entries: Vec<MediaEntry> = Vec::new();
        let mut j: usize = 0;
        while j < self.entries.len()
            invariant
                j <= self.entries@.len(),
                unique_ids(self.entries@),
                entries@.len() == j,
                forall|t: int|
                    #![trigger entries@[t]]
                    0 <= t < j ==> entries@[t].id@ == self.entries@[t].id@ && entries@[t].mime@
                        == self.entries@[t].mime@ && entries@[t].bytes@ == self.entries@[t].bytes@,
            decreases self.entries@.len() - j,
        {
            entries.push(self.entries[j].clone());
            j += 1;
        }
        proof {
            assert(unique_ids(entries@)) by {
                assert forall|a: int, b: int|
                    0 <= a < entries@.len() && 0 <= b < entries@.len() && a != b implies entries@[a].id@
                    != entries@[b].id@ by {
                    assert(entries@[a].id@ == self.entries@[a].id@);
                    assert(entries@[b].id@ == self.entries@[b].id@);
                }
            }
            lemma_entries_map_same(entries@, self.entries@);
            assert(entries@.map_values(|e: MediaEntry| e.id@) =~= self.entries@.map_values(
                |e: MediaEntry| e.id@,
            ));
        }
        MediaBundle { entries }
    }
}

/// Entry lists with equal ids, mimes and bytes denote the same map.
proof fn lemma_entries_map_same(a: Seq<MediaEntry>, b: Seq<MediaEntry>)
    requires
        a.len() == b.len(),
        forall|t: int|
            #![trigger a[t]]
            0 <= t < a.len() ==> a[t].id@ == b[t].id@ && a[t].mime@ == b[t].mime@ && a[t].bytes@
                == b[t].bytes@,
    ensures
        entries_map(a) == entries_map(b),
    decreases a.len(),
{
    if a.len() > 0 {
        lemma_entries_map_same(a.drop_last(), b.drop_last());
        assert(a[a.len() - 1].id@ == b[b.len() - 1].id@);
    }
}

impl MediaBundle {
    #[verifier::type_invariant]
    spec fn inv(self) -> bool {
        unique_ids(self.entries@)
    }

    /// `media_id -> (mime, bytes)`.
    pub closed spec fn view(&self) -> Map<Seq<char>, (Seq<char>, Seq<u8>)> {
        entries_map(self.entries@)
    }

    /// The ids in the order they were first inserted.
    pub closed spec fn order(&self) -> Seq<Seq<char>> {
        self.entries@.map_values(|e: MediaEntry| e.id@)
    }

    /// An empty bundle.
    pub fn new() -> (b: Self)
        ensures
            b.view() == Map::<Seq<char>, (Seq<char>, Seq<u8>)>::empty(),
            b.order() == Seq::<Seq<char>>::empty(),
    {
        proof {
            assert(Seq::<MediaEntry>::empty().map_values(|e: MediaEntry| e.id@) =~= Seq::<Seq<char>>::empty());
        }
        MediaBundle { entries: Vec::new() }
    }

    /// Store `bytes` with their `mime` under `id`, replacing a previous
    /// entry with that id in place; a new id goes last.
    pub fn insert(&mut self, id: &str, mime: &str, bytes: Vec<u8>)
        ensures
            final(self).view() == old(self).view().insert(id@, (mime@, bytes@)),
            final(self).order() == if old(self).view().contains_key(id@) {
                old(self).order()
            } else {
                old(self).order().push(id@)
            },
    {
        proof {
            use_type_invariant(&*self);
            lemma_entries_map(self.entries@);
        }
        let ghost ord0 = self.order();
        let e = MediaEntry { id: String::from_str(id), mime: String::from_str(mime), bytes };
        match self.find(id) {
            Some(j) => {
                proof {
                    lemma_entries_map_update(self.entries@, j as int, e);
                }
                let mut entries: Vec<MediaEntry> = Vec::new();
                std::mem::swap(&mut entries, &mut self.entries);
                proof {
                    assert(unique_ids(entries@.update(j as int, e)));
                }
                let ghost es0 = entries@;
                entries.set(j, e);
                self.entries = entries;
                proof {
                    assert(self.entries@ == es0.update(j as int, e));
                    assert(self.order() =~= ord0);
                }
            },
            None => {
                let mut entries: Vec<MediaEntry> = Vec::new();
                std::mem::swap(&mut entries, &mut self.entries);
                let ghost es = entries@;
                entries.push(e);
                proof {
                    assert(entries@.drop_last() =~= es);
                    assert(unique_ids(entries@));
                }
                self.entries = entries;
                proof {
                    assert(!old(self).view().contains_key(id@));
                    assert(self.order() =~= ord0.push(id@));
                }
            },
        }
    }

    /// Position of the entry with the given id.
    fn find(&self, id: &str) -> (r: Option<usize>)
        ensures
            r matches Some(j) ==> j < self.entries@.len() && self.entries@[j as int].id@ == id@,
            r is None ==> forall|j: int| 0 <= j < self.entries@.len() ==> self.entries@[j].id@ != id@,
    {
        let want = chars_of(id);
        let mut j: usize = 0;
        while j < self.entries.len()
            invariant
                j <= self.entries@.len(),
                want@ == id@,
                forall|t: int| 0 <= t < j ==> self.entries@[t].id@ != id@,
            decreases self.entries@.len() - j,
        {
            let cand = chars_of(self.entries[j].id.as_str());
            if chars_eq(&cand, &want) {
                return Some(j);
            }
            j += 1;
        }
        None
    }

    /// The mime type and bytes stored under `id`, if any.
    pub fn get(&self, id: &str) -> (r: Option<(&str, &[u8])>)
        ensures
            r matches Some(p) ==> self.view().contains_key(id@) && self.view()[id@] == (p.0@, p.1@),
            r is None ==> !self.view().contains_key(id@),
    {
        proof {
            use_type_invariant(self);
            lemma_entries_map(self.entries@);
        }
        match self.find(id) {
            Some(j) => {
                let e = &self.entries[j];
                Some((e.mime.as_str(), e.bytes.as_slice()))
            },
            None => None,
        }
    }

    /// Whether the bundle holds no entry.
    pub fn is_empty(&self) -> (r: bool)
        ensures
            r == (self.view() == Map::<Seq<char>, (Seq<char>, Seq<u8>)>::empty()),
    {
        proof {
            use_type_invariant(self);
            lemma_entries_map(self.entries@);
            if self.entries@.len() > 0 {
                assert(self.view().contains_key(self.entries@[0].id@));
            } else {
                assert(self.view() =~= Map::<Seq<char>, (Seq<char>, Seq<u8>)>::empty());
            }
        }
        self.entries.len() == 0
    }

    /// All `(id, mime, bytes)` entries, each id once, in the order the ids
    /// were first inserted.
    pub fn iter(&self) -> (r: Vec<(&str, &str, &[u8])>)
        ensures
            r@.len() == self.order().len(),
            forall|i: int| #![trigger r@[i]] 0 <= i < r@.len() ==> r@[i].0@ == self.order()[i],
            forall|i: int, j: int|
                0 <= i < r@.len() && 0 <= j < r@.len() && i != j ==> r@[i].0@ != r@[j].0@,
            forall|i: int|
                #![trigger r@[i]]
                0 <= i < r@.len() ==> self.view().contains_key(r@[i].0@) && self.view()[r@[i].0@]
                    == (r@[i].1@, r@[i].2@),
            forall|k: Seq<char>|
                self.view().contains_key(k) ==> exists|i: int| 0 <= i < r@.len() && r@[i].0@ == k,
    {
        proof {
            use_type_invariant(self);
            lemma_entries_map(self.entries@);
        }
        let mut r: Vec<(&str, &str, &[u8])> = Vec::new();
        let mut j: usize = 0;
        while j < self.entries.len()
            invariant
                j <= self.entries@.len(),
                r@.len() == j,
                forall|t: int|
                    #![trigger r@[t]]
                    0 <= t < j ==> r@[t].0@ == self.entries@[t].id@ && r@[t].1@
                        == self.entries@[t].mime@ && r@[t].2@ == self.entries@[t].bytes@,
            decreases self.entries@.len() - j,
        {
            let e = &self.entries[j];
            r.push((e.id.as_str(), e.mime.as_str(), e.bytes.as_slice()));
            j += 1;
        }
        proof {
            assert forall|k: Seq<char>| self.view().contains_key(k) implies exists|i: int|
                0 <= i < r@.len() && r@[i].0@ == k by {
                assert(entries_map(self.entries@).contains_key(k));
                let t = choose|t: int| 0 <= t < self.entries@.len() && self.entries@[t].id@ == k;
                assert(r@[t].0@ == k);
            }
            assert forall|i: int, j: int|
                0 <= i < r@.len() && 0 <= j < r@.len() && i != j implies r@[i].0@ != r@[j].0@ by {
                assert(r@[i].0@ == self.entries@[i].id@);
                assert(r@[j].0@ == self.entries@[j].id@);
            }
            assert forall|i: int| #![trigger r@[i]] 0 <= i < r@.len() implies self.view().contains_key(
                r@[i].0@,
            ) && self.view()[r@[i].0@] == (r@[i].1@, r@[i].2@) by {
                assert(self.entries@[i] == self.entries@[i]);
            }
        }
        r
    }
}

/// The attribute that marks an embedded asset: `data-media-id="`.
pub open spec fn media_attr() -> Seq<char> {
    seq!['d', 'a', 't', 'a', '-', 'm', 'e', 'd', 'i', 'a', '-', 'i', 'd', '=', '"']
}

/// The non-empty ids of the `data-media-id="…"` attributes found scanning
/// `h` from `cursor` on, in order; a scan stops at an unclosed attribute.
pub open spec fn media_ids_from(h: Seq<char>, cursor: int) -> Seq<Seq<char>>
    decreases h.len() + 1 - cursor,
{
    match find_from(h, media_attr(), cursor) {
        None => Seq::empty(),
        Some(start) => {
            let a = start + media_attr().len();
            match find_from(h, seq!['"'], a) {
                None => Seq::empty(),
                Some(end) => {
                    proof {
                        lemma_find_from_occurs(h, media_attr(), cursor);
                        lemma_find_from_occurs(h, seq!['"'], a);
                    }
                    let here = if end > a {
                        seq![h.subrange(a, end)]
                    } else {
                        Seq::empty()
                    };
                    here + media_ids_from(h, end + 1)
                },
            }
        },
    }
}

/// Every non-empty `data-media-id="…"` value in `html`, in document order
/// (a plain scan of the attribute text, which the editor writes in one
/// fixed form).
pub fn extract_media_ids(html: &str) -> (out: Vec<String>)
    ensures
        string_views(out@) == media_ids_from(html@, 0),
{
    let h = chars_of(html);
    let needle = chars_of("data-media-id=\"");
    let quote = chars_of("\"");
    proof {
        reveal_strlit("data-media-id=\"");
        reveal_strlit("\"");
        assert(needle@ =~= media_attr());
        assert(quote@ =~= seq!['"']);
    }
    let mut out: Vec<String> = Vec::new();
    let mut cursor: usize = 0;
    loop
        invariant
            h@ == html@,
            needle@ == media_attr(),
            quote@ == seq!['"'],
            cursor <= h@.len(),
            string_views(out@) + media_ids_from(h@, cursor as int) == media_ids_from(h@, 0),
        ensures
            string_views(out@) == media_ids_from(h@, 0),
        decreases h@.len() + 1 - cursor,
    {
        match find_from_exec(&h, &needle, cursor) {
            None => {
                assert(string_views(out@) =~= string_views(out@) + media_ids_from(h@, cursor as int));
                break;
            },
            Some(start) => {
                proof {
                    lemma_find_from_occurs(h@, media_attr(), cursor as int);
                    assert(start + needle@.len() <= h@.len());
                }
                let hl = h.len();
                assert(start + needle.len() <= hl);
                let abs = start + needle.len();
                match find_from_exec(&h, &quote, abs) {
                    None => {
                        assert(string_views(out@) =~= string_views(out@) + media_ids_from(
                            h@,
                            cursor as int,
                        ));
                        break;
                    },
                    Some(end) => {
                        proof {
                            lemma_find_from_occurs(h@, seq!['"'], abs as int);
                        }
                        let ghost before = out@;
                        if end > abs {
                            let id = slice_chars(&h, abs, end);
                            out.push(string_of(&id));
                            assert(string_views(out@) =~= string_views(before) + seq![
                                h@.subrange(abs as int, end as int),
                            ]);
                        }
                        let ghost rest = media_ids_from(h@, end + 1);
                        assert(string_views(out@) + rest =~= string_views(before)
                            + media_ids_from(h@, cursor as int));
                        cursor = end + 1;
                    },
                }
            },
        }
    }
    out
}

} // verus!
