//! Citation records handed to the store: a key, an entry type and the
//! entry's fields as a name-ordered map.
use vstd::prelude::*;
use vstd::string::*;

use crate::text::{chars_eq, chars_of, lemma_lex_lt, lex_le_exec, lex_lt};

verus! {

/// Field names and values as characters.
pub open spec fn pairs_view(es: Seq<(String, String)>) -> Seq<(Seq<char>, Seq<char>)> {
    es.map_values(|e: (String, String)| (e.0@, e.1@))
}

/// Names in strictly increasing string order (hence pairwise distinct).
pub open spec fn names_sorted(ps: Seq<(Seq<char>, Seq<char>)>) -> bool {
    forall|i: int, j: int| 0 <= i < j < ps.len() ==> lex_lt(#[trigger] ps[i].0, #[trigger] ps[j].0)
}

/// The map a list of `(name, value)` pairs denotes.
pub open spec fn pairs_map(ps: Seq<(Seq<char>, Seq<char>)>) -> Map<Seq<char>, Seq<char>>
    decreases ps.len(),
{
    if ps.len() == 0 {
        Map::empty()
    } else {
        pairs_map(ps.drop_last()).insert(ps.last().0, ps.last().1)
    }
}

/// With distinct names, the map holds exactly the pairs.
proof fn lemma_pairs_map(ps: Seq<(Seq<char>, Seq<char>)>)
    requires
        names_sorted(ps),
    ensures
        forall|k: Seq<char>|
            #![trigger pairs_map(ps).contains_key(k)]
            pairs_map(ps).contains_key(k) <==> exists|j: int| 0 <= j < ps.len() && ps[j].0 == k,
        forall|j: int|
            #![trigger ps[j]]
            0 <= j < ps.len() ==> pairs_map(ps).contains_key(ps[j].0) && pairs_map(ps)[ps[j].0]
                == ps[j].1,
    decreases ps.len(),
{
    if ps.len() > 0 {
        let p = ps.drop_last();
        assert(names_sorted(p)) by {
            assert forall|i: int, j: int| 0 <= i < j < p.len() implies lex_lt(
                #[trigger] p[i].0,
                #[trigger] p[j].0,
            ) by {
                assert(p[i] == ps[i] && p[j] == ps[j]);
            }
        }
        lemma_pairs_map(p);
        assert forall|k: Seq<char>| #![trigger pairs_map(ps).contains_key(k)]
            pairs_map(ps).contains_key(k) <==> exists|j: int| 0 <= j < ps.len() && ps[j].0 == k by {
            if pairs_map(ps).contains_key(k) && k != ps.last().0 {
                assert(pairs_map(p).contains_key(k));
                let j = choose|j: int| 0 <= j < p.len() && p[j].0 == k;
                assert(ps[j] == p[j]);
            }
            if pairs_map(ps).contains_key(k) && k == ps.last().0 {
                assert(ps[ps.len() - 1].0 == k);
            }
            if exists|j: int| 0 <= j < ps.len() && ps[j].0 == k {
                let j = choose|j: int| 0 <= j < ps.len() && ps[j].0 == k;
                if j < ps.len() - 1 {
                    assert(p[j] == ps[j]);
                }
            }
        }
        assert forall|j: int| #![trigger ps[j]] 0 <= j < ps.len() implies pairs_map(ps).contains_key(
            ps[j].0,
        ) && pairs_map(ps)[ps[j].0] == ps[j].1 by {
            if j < ps.len() - 1 {
                assert(p[j] == ps[j]);
                assert(lex_lt(ps[j].0, ps[ps.len() - 1].0));
            }
        }
    }
}

/// Two name-sorted lists with the same pairs, by name, denote the same map.
proof fn lemma_pairs_map_ext(a: Seq<(Seq<char>, Seq<char>)>, m: Map<Seq<char>, Seq<char>>)
    requires
        names_sorted(a),
        forall|k: Seq<char>| m.contains_key(k) <==> exists|j: int| 0 <= j < a.len() && a[j].0 == k,
        forall|j: int| 0 <= j < a.len() ==> #[trigger] m[a[j].0] == a[j].1,
    ensures
        pairs_map(a) == m,
{
    lemma_pairs_map(a);
    assert forall|k: Seq<char>| #[trigger] pairs_map(a).contains_key(k) implies pairs_map(a)[k] == m[k] by {
        let j = choose|j: int| 0 <= j < a.len() && a[j].0 == k;
        assert(a[j] == a[j]);
    }
    assert(pairs_map(a) =~= m);
}

/// A map from field names to values, iterated in name order (the order
/// of a `BTreeMap<String, String>`).
#[derive(Debug)]
pub struct FieldMap {
    entries: Vec<(String, String)>,
}

impl FieldMap {
    #[verifier::type_invariant]
    spec fn inv(self) -> bool {
        names_sorted(pairs_view(self.entries@))
    }

    /// The `(name, value)` pairs in name order.
    pub closed spec fn pairs(&self) -> Seq<(Seq<char>, Seq<char>)> {
        pairs_view(self.entries@)
    }

    /// `name -> value`.
    pub closed spec fn view(&self) -> Map<Seq<char>, Seq<char>> {
        pairs_map(pairs_view(self.entries@))
    }

    /// An empty map.
    pub fn new() -> (r: Self)
        ensures
            r@ == Map::<Seq<char>, Seq<char>>::empty(),
            r.pairs() == Seq::<(Seq<char>, Seq<char>)>::empty(),
    {
        let r = FieldMap { entries: Vec::new() };
        assert(pairs_view(r.entries@) =~= Seq::<(Seq<char>, Seq<char>)>::empty());
        r
    }

    /// Number of fields.
    pub fn len(&self) -> (n: usize)
        ensures
            n == self.pairs().len(),
    {
        self.entries.len()
    }

    /// The value stored under `name`.
    pub fn get(&self, name: &str) -> (r: Option<&str>)
        ensures
            r matches Some(v) ==> self@.contains_key(name@) && self@[name@] == v@,
            r is None ==> !self@.contains_key(name@),
    {
        proof {
            use_type_invariant(self);
            lemma_pairs_map(pairs_view(self.entries@));
        }
        let want = chars_of(name);
        let mut j: usize = 0;
        while j < self.entries.len()
            invariant
                j <= self.entries@.len(),
                want@ == name@,
                names_sorted(pairs_view(self.entries@)),
                forall|t: int| 0 <= t < j ==> self.entries@[t].0@ != name@,
            decreases self.entries@.len() - j,
        {
            let cand = chars_of(self.entries[j].0.as_str());
            if chars_eq(&cand, &want) {
                assert(pairs_view(self.entries@)[j as int] == (
                    self.entries@[j as int].0@,
                    self.entries@[j as int].1@,
                ));
                assert(self.entries@[j as int].0@ == name@);
                proof {
                    lemma_pairs_map(pairs_view(self.entries@));
                }
                assert(self@[name@] == self.entries@[j as int].1@);
                return Some(self.entries[j].1.as_str());
            }
            j += 1;
        }
        proof {
            if self@.contains_key(name@) {
                let t = choose|t: int|
                    0 <= t < pairs_view(self.entries@).len() && pairs_view(self.entries@)[t].0
                        == name@;
                assert(pairs_view(self.entries@)[t].0 == self.entries@[t].0@);
            }
        }
        None
    }

    /// The `(name, value)` pairs, in strictly increasing name order; they
    /// make up the map.
    pub fn entries(&self) -> (r: &Vec<(String, String)>)
        ensures
            pairs_view(r@) == self.pairs(),
            names_sorted(self.pairs()),
            self@ == pairs_map(self.pairs()),
    {
        proof {
            use_type_invariant(self);
        }
        &self.entries
    }

    /// Store `value` under `name`, replacing a previous value.
    pub fn insert(&mut self, name: String, value: String)
        ensures
            final(self)@ == old(self)@.insert(name@, value@),
    {
        proof {
            use_type_invariant(&*self);
        }
        let ghost ps = pairs_view(self.entries@);
        let ghost nv = name@;
        let ghost vv = value@;
        let key = chars_of(name.as_str());
        let mut i: usize = 0;
        while i < self.entries.len()
            invariant
                i <= self.entries@.len(),
                ps == pairs_view(self.entries@),
                names_sorted(ps),
                key@ == nv,
                forall|t: int| 0 <= t < i ==> lex_lt(#[trigger] ps[t].0, nv),
            ensures
                i <= self.entries@.len(),
                ps == pairs_view(self.entries@),
                forall|t: int| 0 <= t < i ==> lex_lt(#[trigger] ps[t].0, nv),
                i < ps.len() ==> (!crate::text::lex_le(ps[i as int].0, nv) || ps[i as int].0 == nv),
            decreases self.entries@.len() - i,
        {
            let cand = chars_of(self.entries[i].0.as_str());
            assert(ps[i as int].0 == cand@);
            let le = lex_le_exec(&cand, &key);
            let eq = chars_eq(&cand, &key);
            if !le || eq {
                break;
            }
            i += 1;
        }
        let mut entries: Vec<(String, String)> = Vec::new();
        std::mem::swap(&mut entries, &mut self.entries);
        let found = i < entries.len() && chars_eq(&chars_of(entries[i].0.as_str()), &key);
        let ghost m = pairs_map(ps).insert(nv, vv);
        proof {
            lemma_pairs_map(ps);
        }
        if found {
            entries.set(i, (name, value));
            let ghost qs = pairs_view(entries@);
            proof {
                assert(qs =~= ps.update(i as int, (nv, vv)));
                assert forall|a: int, b: int| 0 <= a < b < qs.len() implies lex_lt(
                    #[trigger] qs[a].0,
                    #[trigger] qs[b].0,
                ) by {
                    assert(qs[a].0 == ps[a].0 && qs[b].0 == ps[b].0);
                }
                assert forall|k: Seq<char>| m.contains_key(k) <==> exists|j: int|
                    0 <= j < qs.len() && qs[j].0 == k by {
                    if m.contains_key(k) {
                        if k == nv {
                            assert(qs[i as int].0 == k);
                        } else {
                            let j = choose|j: int| 0 <= j < ps.len() && ps[j].0 == k;
                            assert(qs[j].0 == k);
                        }
                    }
                    if exists|j: int| 0 <= j < qs.len() && qs[j].0 == k {
                        let j = choose|j: int| 0 <= j < qs.len() && qs[j].0 == k;
                        assert(ps[j].0 == k);
                    }
                }
                assert forall|j: int| 0 <= j < qs.len() implies #[trigger] m[qs[j].0] == qs[j].1 by {
                    if j != i {
                        assert(qs[j] == ps[j]);
                        if j < i {
                            assert(lex_lt(ps[j].0, ps[i as int].0));
                        } else {
                            assert(lex_lt(ps[i as int].0, ps[j].0));
                        }
                    }
                }
                lemma_pairs_map_ext(qs, m);
            }
            self.entries = entries;
        } else {
            let ghost before = entries@;
            entries.insert(i, (name, value));
            let ghost qs = pairs_view(entries@);
            proof {
                assert(qs =~= ps.insert(i as int, (nv, vv)));
                if i < ps.len() {
                    lemma_lex_lt(ps[i as int].0, nv, nv);
                    lemma_lex_lt(nv, ps[i as int].0, nv);
                    assert(lex_lt(nv, ps[i as int].0));
                }
                assert forall|t: int| 0 <= t < ps.len() implies ps[t].0 != nv by {
                    if t < i {
                        assert(lex_lt(ps[t].0, nv));
                    } else if t > i {
                        lemma_lex_lt(nv, ps[i as int].0, ps[t].0);
                        assert(lex_lt(ps[i as int].0, ps[t].0));
                    }
                }
                assert forall|a: int, b: int| 0 <= a < b < qs.len() implies lex_lt(
                    #[trigger] qs[a].0,
                    #[trigger] qs[b].0,
                ) by {
                    if b < i {
                        assert(qs[a] == ps[a] && qs[b] == ps[b]);
                    } else if b == i {
                        assert(qs[a] == ps[a]);
                    } else if a < i {
                        assert(qs[a] == ps[a] && qs[b] == ps[b - 1]);
                        assert(lex_lt(ps[a].0, ps[b - 1].0));
                    } else if a == i {
                        assert(qs[b] == ps[b - 1]);
                        if b - 1 > i {
                            lemma_lex_lt(nv, ps[i as int].0, ps[b - 1].0);
                            assert(lex_lt(ps[i as int].0, ps[b - 1].0));
                        }
                    } else {
                        assert(qs[a] == ps[a - 1] && qs[b] == ps[b - 1]);
                        assert(lex_lt(ps[a - 1].0, ps[b - 1].0));
                    }
                }
                assert forall|k: Seq<char>| m.contains_key(k) <==> exists|j: int|
                    0 <= j < qs.len() && qs[j].0 == k by {
                    if m.contains_key(k) {
                        if k == nv {
                            assert(qs[i as int].0 == k);
                        } else {
                            let j = choose|j: int| 0 <= j < ps.len() && ps[j].0 == k;
                            if j < i {
                                assert(qs[j].0 == k);
                            } else {
                                assert(qs[j + 1].0 == k);
                            }
                        }
                    }
                    if exists|j: int| 0 <= j < qs.len() && qs[j].0 == k {
                        let j = choose|j: int| 0 <= j < qs.len() && qs[j].0 == k;
                        if j < i {
                            assert(ps[j].0 == k);
                        } else if j > i {
                            assert(ps[j - 1].0 == k);
                        }
                    }
                }
                assert forall|j: int| 0 <= j < qs.len() implies #[trigger] m[qs[j].0] == qs[j].1 by {
                    if j < i {
                        assert(qs[j] == ps[j]);
                    } else if j > i {
                        assert(qs[j] == ps[j - 1]);
                    }
                }
                lemma_pairs_map_ext(qs, m);
            }
            self.entries = entries;
        }
    }
}

impl Clone for FieldMap {
    fn clone(&self) -> (r: Self)
        ensures
            r.pairs() == self.pairs(),
            r@ == self@,
    {
        proof {
            use_type_invariant(self);
        }
        let mut entries: Vec<(String, String)> = Vec::new();
        let mut j: usize = 0;
        while j < self.entries.len()
            invariant
                j <= self.entries@.len(),
                entries@.len() == j,
                forall|t: int|
                    #![trigger entries@[t]]
                    0 <= t < j ==> entries@[t].0@ == self.entries@[t].0@ && entries@[t].1@
                        == self.entries@[t].1@,
            decreases self.entries@.len() - j,
        {
            let e = &self.entries[j];
            entries.push((e.0.clone(), e.1.clone()));
            j += 1;
        }
        assert(pairs_view(entries@) =~= pairs_view(self.entries@));
        FieldMap { entries }
    }
}

/// One citation to store under a project: its key, its lower-case entry
/// type and its fields.
#[derive(Debug, Clone)]
pub struct UpsertEntry {
    pub key: String,
    pub entry_type: String,
    pub fields: FieldMap,
}

} // verus!
