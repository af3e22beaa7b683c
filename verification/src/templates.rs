//! The template catalogue: the built-in templates (checked once when they
//! are loaded, listed by name) and the catalogue that layers the user's
//! templates over them.
use vstd::prelude::*;
use vstd::string::*;

use crate::domain::{FieldType, MetadataField, Template, TemplateKind, TemplateNode, TemplateTier};
use crate::error::{AppError, AppResult};
use crate::text::{chars_eq, chars_of, lex_le, lex_lt};
use crate::user_templates::{
    by_name, lemma_insert_sorted, name_lt, slot_view, slot_views, sort_templates_by_name,
    sorted_by_name, SlotView,
};

verus! {

/// Lists and finds project templates.
pub trait TemplatesService {
    /// Every template, sorted by name.
    fn list(&self) -> Vec<Template>;

    /// The template with the given id.
    fn get(&self, id: &str) -> Option<Template>;
}

/// A metadata field with its texts as characters.
pub struct FieldView {
    pub key: Seq<char>,
    pub label: Seq<char>,
    pub field_type: FieldType,
    pub required: bool,
    pub default: Option<Seq<char>>,
}

/// The characters of an optional string.
pub open spec fn opt_seq(o: Option<String>) -> Option<Seq<char>> {
    match o {
        Some(s) => Some(s@),
        None => None,
    }
}

/// The view of a metadata field.
pub open spec fn field_view(f: MetadataField) -> FieldView {
    FieldView {
        key: f.key@,
        label: f.label@,
        field_type: f.field_type,
        required: f.required,
        default: opt_seq(f.default),
    }
}

/// A template with its texts as characters.
pub struct TemplateView {
    pub schema_version: u32,
    pub id: Seq<char>,
    pub name: Seq<char>,
    pub description: Option<Seq<char>>,
    pub kind: TemplateKind,
    pub locale: Seq<char>,
    pub tier: TemplateTier,
    pub structure: Seq<SlotView>,
    pub metadata_fields: Seq<FieldView>,
}

/// The view of a template.
#[verifier::opaque]
pub open spec fn template_view(t: Template) -> TemplateView {
    TemplateView {
        schema_version: t.schema_version,
        id: t.id@,
        name: t.name@,
        description: opt_seq(t.description),
        kind: t.kind,
        locale: t.locale@,
        tier: t.tier,
        structure: slot_views(t.structure@),
        metadata_fields: t.metadata_fields@.map_values(|f: MetadataField| field_view(f)),
    }
}

/// The views of a list of templates.
pub open spec fn template_views(s: Seq<Template>) -> Seq<TemplateView> {
    s.map_values(|t: Template| template_view(t))
}

/// Names in string order.
pub open spec fn names_sorted(vs: Seq<TemplateView>) -> bool {
    forall|i: int, j: int| 0 <= i < j < vs.len() ==> lex_le(#[trigger] vs[i].name, #[trigger] vs[j].name)
}

/// No two templates share an id.
pub open spec fn ids_distinct(vs: Seq<TemplateView>) -> bool {
    forall|i: int, j: int| 0 <= i < vs.len() && 0 <= j < vs.len() && i != j ==> #[trigger] vs[i].id
        != #[trigger] vs[j].id
}

/// No two templates of a list share an id.
pub open spec fn ids_unique(s: Seq<Template>) -> bool {
    forall|i: int, j: int| 0 <= i < s.len() && 0 <= j < s.len() && i != j ==> #[trigger] s[i].id@
        != #[trigger] s[j].id@
}

/// A template's view carries its id and name.
proof fn lemma_view_fields(t: Template)
    ensures
        template_view(t).id == t.id@,
        template_view(t).name == t.name@,
{
    reveal(template_view);
}

/// Distinct ids of the templates are distinct ids of their views.
proof fn lemma_ids_views(s: Seq<Template>)
    requires
        ids_unique(s),
    ensures
        ids_distinct(template_views(s)),
{
    assert forall|i: int, j: int|
        0 <= i < template_views(s).len() && 0 <= j < template_views(s).len() && i != j implies #[trigger] template_views(s)[i].id
        != #[trigger] template_views(s)[j].id by {
        lemma_view_fields(s[i]);
        lemma_view_fields(s[j]);
        assert(template_views(s)[i].id == s[i].id@);
        assert(template_views(s)[j].id == s[j].id@);
    }
}

fn copy_opt(o: &Option<String>) -> (r: Option<String>)
    ensures
        opt_seq(r) == opt_seq(*o),
{
    match o {
        Some(s) => Some(s.clone()),
        None => None,
    }
}

/// A copy of a list of template slots.
fn copy_nodes(v: &Vec<TemplateNode>) -> (r: Vec<TemplateNode>)
    ensures
        slot_views(r@) == slot_views(v@),
    decreases v,
{
    let mut out: Vec<TemplateNode> = Vec::new();
    let mut i: usize = 0;
    while i < v.len()
        invariant
            i <= v@.len(),
            slot_views(out@) == slot_views(v@.take(i as int)),
        decreases v@.len() - i,
    {
        let n = &v[i];
        let children = copy_nodes(&n.children);
        let c = TemplateNode {
            title: n.title.clone(),
            doc_type: n.doc_type,
            synopsis: copy_opt(&n.synopsis),
            children,
        };
        proof {
            assert(v@.take(i + 1).drop_last() =~= v@.take(i as int));
            assert(v@.take(i + 1).last() == v@[i as int]);
            assert(slot_view(c) == slot_view(v@[i as int]));
        }
        let ghost before = out@;
        out.push(c);
        proof {
            assert(out@.drop_last() =~= before);
        }
        i += 1;
    }
    proof {
        assert(v@.take(v@.len() as int) =~= v@);
    }
    out
}

fn copy_field(f: &MetadataField) -> (r: MetadataField)
    ensures
        field_view(r) == field_view(*f),
{
    MetadataField {
        key: f.key.clone(),
        label: f.label.clone(),
        field_type: f.field_type,
        required: f.required,
        default: copy_opt(&f.default),
    }
}

/// A copy of a template.
pub fn copy_template(t: &Template) -> (r: Template)
    ensures
        template_view(r) == template_view(*t),
{
    let mut fields: Vec<MetadataField> = Vec::new();
    let mut i: usize = 0;
    while i < t.metadata_fields.len()
        invariant
            i <= t.metadata_fields@.len(),
            fields@.len() == i,
            forall|k: int| 0 <= k < i ==> field_view(#[trigger] fields@[k]) == field_view(
                t.metadata_fields@[k],
            ),
        decreases t.metadata_fields@.len() - i,
    {
        fields.push(copy_field(&t.metadata_fields[i]));
        i += 1;
    }
    let r = Template {
        schema_version: t.schema_version,
        id: t.id.clone(),
        name: t.name.clone(),
        description: copy_opt(&t.description),
        kind: t.kind,
        locale: t.locale.clone(),
        tier: t.tier,
        structure: copy_nodes(&t.structure),
        metadata_fields: fields,
    };
    proof {
        reveal(template_view);
        assert(r.metadata_fields@.map_values(|f: MetadataField| field_view(f)) =~= t.metadata_fields@.map_values(
            |f: MetadataField| field_view(f),
        ));
    }
    r
}

/// The error of a built-in file whose template carries another id.
pub open spec fn id_mismatch(expected: Seq<char>, got: Seq<char>) -> Seq<char> {
    "template file expected id '"@ + expected + "', got '"@ + got + "'"@
}

/// Entry `i` is the last one whose template has its id.
pub open spec fn last_with_id(es: Seq<(String, Template)>, i: int) -> bool {
    0 <= i < es.len() && forall|j: int| i < j < es.len() ==> #[trigger] es[j].1.id@ != es[i].1.id@
}

/// The id of entry `i` matches its template's.
pub open spec fn entry_ok(es: Seq<(String, Template)>, i: int) -> bool {
    es[i].0@ == es[i].1.id@
}

/// Drop the template whose id is `id`, if any, from a name-sorted list
/// with distinct ids; the index it had.
fn remove_with_id(acc: &mut Vec<Template>, id: &str) -> (r: Option<usize>)
    requires
        sorted_by_name(old(acc)@),
        ids_unique(old(acc)@),
    ensures
        sorted_by_name(final(acc)@),
        ids_unique(final(acc)@),
        forall|t: int| 0 <= t < final(acc)@.len() ==> #[trigger] final(acc)@[t].id@ != id@,
        match r {
            Some(k) => k < old(acc)@.len() && old(acc)@[k as int].id@ == id@ && final(acc)@ == old(
                acc,
            )@.remove(k as int),
            None => final(acc)@ == old(acc)@,
        },
{
    let ghost a0 = acc@;
    let want = chars_of(id);
    let mut k: usize = 0;
    let mut found = false;
    while k < acc.len()
        invariant_except_break
            !found,
        invariant
            k <= acc@.len(),
            acc@ == a0,
            want@ == id@,
            forall|t: int| 0 <= t < k ==> acc@[t].id@ != id@,
        ensures
            acc@ == a0,
            k <= acc@.len(),
            found ==> k < acc@.len() && acc@[k as int].id@ == id@,
            !found ==> forall|t: int| 0 <= t < acc@.len() ==> acc@[t].id@ != id@,
        decreases acc@.len() - k,
    {
        let yi = chars_of(acc[k].id.as_str());
        if chars_eq(&yi, &want) {
            found = true;
            break;
        }
        k += 1;
    }
    if found {
        acc.remove(k);
        proof {
            let a1 = acc@;
            assert(a1 == a0.remove(k as int));
            assert forall|p: int, q: int|
                0 <= p < a1.len() && 0 <= q < a1.len() && p != q implies #[trigger] a1[p].id@
                != #[trigger] a1[q].id@ by {
                let p1 = if p < k { p } else { p + 1 };
                let q1 = if q < k { q } else { q + 1 };
                assert(a1[p] == a0[p1] && a1[q] == a0[q1]);
            }
            assert forall|p: int, q: int| 0 <= p < q < a1.len() implies lex_le(
                #[trigger] a1[p].name@,
                #[trigger] a1[q].name@,
            ) by {
                let p1 = if p < k { p } else { p + 1 };
                let q1 = if q < k { q } else { q + 1 };
                assert(a1[p] == a0[p1] && a1[q] == a0[q1]);
            }
            assert forall|t: int| 0 <= t < a1.len() implies #[trigger] a1[t].id@ != id@ by {
                let t1 = if t < k { t } else { t + 1 };
                assert(a1[t] == a0[t1]);
                assert(t1 != k);
            }
        }
        Some(k)
    } else {
        None
    }
}

/// Insert `x` where its name belongs in a name-sorted list without its id;
/// the index it lands at.
fn insert_in_order(acc: &mut Vec<Template>, x: Template) -> (j: usize)
    requires
        sorted_by_name(old(acc)@),
        ids_unique(old(acc)@),
        forall|t: int| 0 <= t < old(acc)@.len() ==> #[trigger] old(acc)@[t].id@ != x.id@,
    ensures
        j <= old(acc)@.len(),
        final(acc)@ == old(acc)@.insert(j as int, x),
        sorted_by_name(final(acc)@),
        ids_unique(final(acc)@),
{
    let ghost a1 = acc@;
    let xn = chars_of(x.name.as_str());
    let mut j: usize = 0;
    let mut stop = false;
    while j < acc.len()
        invariant_except_break
            !stop,
        invariant
            j <= acc@.len(),
            acc@ == a1,
            xn@ == x.name@,
            forall|t: int| 0 <= t < j ==> !lex_lt(x.name@, #[trigger] a1[t].name@),
        ensures
            acc@ == a1,
            j <= a1.len(),
            forall|t: int| 0 <= t < j ==> !lex_lt(x.name@, #[trigger] a1[t].name@),
            j < a1.len() ==> lex_lt(x.name@, a1[j as int].name@),
        decreases acc@.len() - j,
    {
        let yn = chars_of(acc[j].name.as_str());
        if name_lt(&xn, &yn) {
            stop = true;
            break;
        }
        j += 1;
    }
    proof {
        lemma_insert_sorted(a1, x, j as int);
    }
    acc.insert(j, x);
    proof {
        let a2 = acc@;
        assert forall|p: int, q: int|
            0 <= p < a2.len() && 0 <= q < a2.len() && p != q implies #[trigger] a2[p].id@
            != #[trigger] a2[q].id@ by {
            if p != j && q != j {
                let p1 = if p < j { p } else { p - 1 };
                let q1 = if q < j { q } else { q - 1 };
                assert(a2[p] == a1[p1] && a2[q] == a1[q1]);
            } else if p == j {
                let q1 = if q < j { q } else { q - 1 };
                assert(a2[q] == a1[q1]);
            } else {
                let p1 = if p < j { p } else { p - 1 };
                assert(a2[p] == a1[p1]);
            }
        }
    }
    j
}

/// The first entry whose template id differs from its file's, if any.
fn first_mismatch(entries: &Vec<(String, Template)>) -> (r: Option<usize>)
    ensures
        match r {
            Some(i) => i < entries@.len() && !entry_ok(entries@, i as int) && forall|j: int|
                0 <= j < i ==> #[trigger] entry_ok(entries@, j),
            None => forall|j: int| 0 <= j < entries@.len() ==> #[trigger] entry_ok(entries@, j),
        },
{
    let mut i: usize = 0;
    while i < entries.len()
        invariant
            i <= entries@.len(),
            forall|j: int| 0 <= j < i ==> #[trigger] entry_ok(entries@, j),
        decreases entries@.len() - i,
    {
        let e = chars_of(entries[i].0.as_str());
        let g = chars_of(entries[i].1.id.as_str());
        if !chars_eq(&e, &g) {
            return Some(i);
        }
        i += 1;
    }
    None
}

/// `v` is the template of the last entry of `es` with its id.
pub open spec fn from_last_entry(es: Seq<(String, Template)>, v: TemplateView) -> bool {
    exists|i: int| #[trigger] last_with_id(es, i) && v == template_view(es[i].1)
}

/// Every template of `vs` is that of the last entry of `es` with its id.
pub open spec fn from_last_entries(es: Seq<(String, Template)>, vs: Seq<TemplateView>) -> bool {
    forall|k: int| 0 <= k < vs.len() ==> from_last_entry(es, #[trigger] vs[k])
}

/// Some template of `vs` has the id `id`.
pub open spec fn id_listed(vs: Seq<TemplateView>, id: Seq<char>) -> bool {
    exists|k: int| 0 <= k < vs.len() && #[trigger] vs[k].id == id
}

/// Every id given by `es` is that of a template of `vs`.
pub open spec fn covers_ids(es: Seq<(String, Template)>, vs: Seq<TemplateView>) -> bool {
    forall|i: int| 0 <= i < es.len() ==> id_listed(vs, #[trigger] es[i].1.id@)
}

/// The catalogue `vs` holds the templates of the entries `es`: sorted by
/// name, one per id, each the last entry given with its id, and every id
/// given present.
pub open spec fn catalogue_of(es: Seq<(String, Template)>, vs: Seq<TemplateView>) -> bool {
    &&& names_sorted(vs)
    &&& ids_distinct(vs)
    &&& from_last_entries(es, vs)
    &&& covers_ids(es, vs)
}

/// Entry `i` is the last, among the first `c`, whose template has its id.
spec fn last_before(orig: Seq<(String, Template)>, c: int, i: int) -> bool {
    0 <= i < c && forall|j: int| i < j < c ==> #[trigger] orig[j].1.id@ != orig[i].1.id@
}

/// After the first `c` entries, `acc` holds for each id met the last
/// template met with it (`acc[k]` is entry `src[k]`'s) and nothing else
/// (entry `i`'s id is that of `acc[pos[i]]`).
spec fn covers(
    orig: Seq<(String, Template)>,
    c: int,
    acc: Seq<Template>,
    src: Seq<int>,
    pos: Seq<int>,
) -> bool {
    &&& src.len() == acc.len()
    &&& pos.len() == c
    &&& forall|k: int|
        0 <= k < acc.len() ==> last_before(orig, c, #[trigger] src[k]) && acc[k] == orig[src[k]].1
    &&& forall|i: int|
        0 <= i < c ==> 0 <= #[trigger] pos[i] < acc.len() && acc[pos[i]].id@ == orig[i].1.id@
}

proof fn lemma_covers_step(
    orig: Seq<(String, Template)>,
    c: int,
    a0: Seq<Template>,
    src: Seq<int>,
    pos: Seq<int>,
    a1: Seq<Template>,
    a2: Seq<Template>,
    removed: Option<int>,
    j: int,
) -> (res: (Seq<int>, Seq<int>))
    requires
        0 <= c < orig.len(),
        covers(orig, c, a0, src, pos),
        match removed {
            Some(r) => 0 <= r < a0.len() && a0[r].id@ == orig[c].1.id@ && a1 == a0.remove(r),
            None => a1 == a0,
        },
        forall|t: int| 0 <= t < a1.len() ==> #[trigger] a1[t].id@ != orig[c].1.id@,
        0 <= j <= a1.len(),
        a2 == a1.insert(j, orig[c].1),
    ensures
        covers(orig, c + 1, a2, res.0, res.1),
{
    let x = orig[c].1;
    let src1 = match removed {
        Some(r) => src.remove(r),
        None => src,
    };
    let src2 = src1.insert(j, c);
    let pos2 = Seq::new(
        (c + 1) as nat,
        |i: int|
            if i == c || orig[i].1.id@ == x.id@ {
                j
            } else {
                let p1 = match removed {
                    Some(r) => if pos[i] > r {
                        pos[i] - 1
                    } else {
                        pos[i]
                    },
                    None => pos[i],
                };
                if p1 >= j {
                    p1 + 1
                } else {
                    p1
                }
            },
    );
    assert forall|k: int| 0 <= k < a2.len() implies last_before(orig, c + 1, #[trigger] src2[k]) && a2[k]
        == orig[src2[k]].1 by {
        if k == j {
            assert(src2[k] == c);
        } else {
            let k1 = if k < j { k } else { k - 1 };
            assert(a2[k] == a1[k1] && src2[k] == src1[k1]);
            let m = match removed {
                Some(r) => if k1 < r { k1 } else { k1 + 1 },
                None => k1,
            };
            assert(a1[k1] == a0[m] && src1[k1] == src[m]);
            assert(last_before(orig, c, src[m]));
            assert(a1[k1].id@ != x.id@);
        }
    }
    assert forall|i: int| 0 <= i < c + 1 implies 0 <= #[trigger] pos2[i] < a2.len() && a2[pos2[i]].id@
        == orig[i].1.id@ by {
        if i == c || orig[i].1.id@ == x.id@ {
            assert(a2[j] == x);
        } else {
            let p = pos[i];
            assert(0 <= p < a0.len() && a0[p].id@ == orig[i].1.id@);
            let p1 = match removed {
                Some(r) => {
                    assert(p != r);
                    if p > r {
                        p - 1
                    } else {
                        p
                    }
                },
                None => p,
            };
            assert(a1[p1] == a0[p]);
            let p2 = if p1 >= j { p1 + 1 } else { p1 };
            assert(pos2[i] == p2);
            assert(a2[p2] == a1[p1]);
        }
    }
    (src2, pos2)
}

proof fn lemma_catalogue(orig: Seq<(String, Template)>, acc: Seq<Template>, src: Seq<int>, pos: Seq<int>)
    requires
        covers(orig, orig.len() as int, acc, src, pos),
        sorted_by_name(acc),
        ids_unique(acc),
    ensures
        catalogue_of(orig, template_views(acc)),
{
    let vs = template_views(acc);
    lemma_ids_views(acc);
    assert forall|p: int, q: int| 0 <= p < q < vs.len() implies lex_le(
        #[trigger] vs[p].name,
        #[trigger] vs[q].name,
    ) by {
        lemma_view_fields(acc[p]);
        lemma_view_fields(acc[q]);
        assert(lex_le(acc[p].name@, acc[q].name@));
    }
    assert(from_last_entries(orig, vs)) by {
    assert forall|kk: int| 0 <= kk < vs.len() implies from_last_entry(orig, #[trigger] vs[kk]) by {
        let i = src[kk];
        assert(last_before(orig, orig.len() as int, i));
        assert(last_with_id(orig, i));
        assert(acc[kk] == orig[i].1);
        assert(vs[kk] == template_view(acc[kk]));
        assert(vs[kk] == template_view(orig[i].1));
    }
    }
    assert(covers_ids(orig, vs)) by {
    assert forall|i: int| 0 <= i < orig.len() implies id_listed(vs, #[trigger] orig[i].1.id@) by {
        let kk = pos[i];
        lemma_view_fields(acc[kk]);
        assert(vs[kk] == template_view(acc[kk]));
        assert(vs[kk].id == acc[kk].id@);
        assert(0 <= kk < vs.len());
    }
    }
    assert(names_sorted(vs));
    assert(ids_distinct(vs));
}

/// The built-in templates, sorted by name, one per id.
pub struct BuiltInTemplates {
    templates: Vec<Template>,
}

impl BuiltInTemplates {
    #[verifier::type_invariant]
    spec fn inv(self) -> bool {
        sorted_by_name(self.templates@) && ids_unique(self.templates@)
    }

    /// The templates, in name order.
    pub closed spec fn view(&self) -> Seq<TemplateView> {
        template_views(self.templates@)
    }

    /// The catalogue of the parsed built-in files, each given with the id
    /// its file is registered under. A template whose id differs from its
    /// file's is refused (the first such, in order); when two files carry
    /// the same id the later one wins.
    pub fn from_entries(entries: Vec<(String, Template)>) -> (r: AppResult<BuiltInTemplates>)
        ensures
            match r {
                Err(e) => exists|i: int|
                    0 <= i < entries@.len() && !entry_ok(entries@, i) && (forall|j: int|
                        0 <= j < i ==> #[trigger] entry_ok(entries@, j)) && e == AppError::Invariant(
                        e->Invariant_0,
                    ) && e->Invariant_0@ == id_mismatch(entries@[i].0@, entries@[i].1.id@),
                Ok(b) => (forall|i: int| 0 <= i < entries@.len() ==> #[trigger] entry_ok(entries@, i))
                    && catalogue_of(entries@, b.view()),
            },
    {
        let ghost orig = entries@;
        match first_mismatch(&entries) {
            Some(i) => {
                let mut m = String::from_str("template file expected id '");
                m.append(entries[i].0.as_str());
                m.append("', got '");
                m.append(entries[i].1.id.as_str());
                m.append("'");
                let e = AppError::Invariant(m);
                assert(0 <= i < orig.len() && !entry_ok(orig, i as int) && (forall|j: int|
                    0 <= j < i ==> #[trigger] entry_ok(orig, j)) && e == AppError::Invariant(
                    e->Invariant_0,
                ) && e->Invariant_0@ == id_mismatch(orig[i as int].0@, orig[i as int].1.id@));
                return Err(e);
            },
            None => {},
        }
        let mut rest = entries;
        let mut acc: Vec<Template> = Vec::new();
        let ghost mut c: int = 0;
        let ghost mut src: Seq<int> = Seq::empty();
        let ghost mut pos: Seq<int> = Seq::empty();
        while rest.len() > 0
            invariant
                0 <= c <= orig.len(),
                rest@ == orig.skip(c),
                sorted_by_name(acc@),
                ids_unique(acc@),
                covers(orig, c, acc@, src, pos),
            decreases rest@.len(),
        {
            let (_, x) = rest.remove(0);
            let ghost a0 = acc@;
            proof {
                assert(x == orig[c].1);
            }
            let removed = remove_with_id(&mut acc, x.id.as_str());
            let ghost a1 = acc@;
            let j = insert_in_order(&mut acc, x);
            proof {
                let rm: Option<int> = match removed {
                    Some(r) => Some(r as int),
                    None => None,
                };
                let res = lemma_covers_step(orig, c, a0, src, pos, a1, acc@, rm, j as int);
                src = res.0;
                pos = res.1;
                c = c + 1;
                assert(rest@ =~= orig.skip(c));
            }
        }
        proof {
            lemma_catalogue(orig, acc@, src, pos);
        }
        Ok(BuiltInTemplates { templates: acc })
    }
}

/// A name-sorted list of templates has name-sorted views.
proof fn lemma_names_views(ts: Seq<Template>)
    requires
        sorted_by_name(ts),
    ensures
        names_sorted(template_views(ts)),
{
    let vs = template_views(ts);
    assert forall|p: int, q: int| 0 <= p < q < vs.len() implies lex_le(
        #[trigger] vs[p].name,
        #[trigger] vs[q].name,
    ) by {
        lemma_view_fields(ts[p]);
        lemma_view_fields(ts[q]);
        assert(lex_le(ts[p].name@, ts[q].name@));
    }
}

/// `v` is listed in `vs` under the id `id`.
pub open spec fn listed_as(vs: Seq<TemplateView>, id: Seq<char>, v: TemplateView) -> bool {
    exists|k: int| 0 <= k < vs.len() && #[trigger] vs[k] == v && v.id == id
}

impl BuiltInTemplates {
    /// Copies of the templates, in name order.
    pub fn templates(&self) -> (r: Vec<Template>)
        ensures
            template_views(r@) == self.view(),
            names_sorted(template_views(r@)),
    {
        proof {
            use_type_invariant(self);
            lemma_names_views(self.templates@);
        }
        let mut out: Vec<Template> = Vec::new();
        let mut i: usize = 0;
        while i < self.templates.len()
            invariant
                i <= self.templates@.len(),
                out@.len() == i,
                forall|k: int| 0 <= k < i ==> #[trigger] template_view(out@[k]) == template_view(
                    self.templates@[k],
                ),
            decreases self.templates@.len() - i,
        {
            out.push(copy_template(&self.templates[i]));
            i += 1;
        }
        assert(template_views(out@) =~= template_views(self.templates@));
        out
    }

    /// A copy of the template with id `id`, if there is one.
    pub fn find(&self, id: &str) -> (r: Option<Template>)
        ensures
            match r {
                Some(t) => listed_as(self.view(), id@, template_view(t)),
                None => !id_listed(self.view(), id@),
            },
    {
        let want = chars_of(id);
        let mut i: usize = 0;
        while i < self.templates.len()
            invariant
                i <= self.templates@.len(),
                want@ == id@,
                forall|k: int| 0 <= k < i ==> #[trigger] self.templates@[k].id@ != id@,
            decreases self.templates@.len() - i,
        {
            let g = chars_of(self.templates[i].id.as_str());
            if chars_eq(&g, &want) {
                let t = copy_template(&self.templates[i]);
                proof {
                    lemma_view_fields(self.templates@[i as int]);
                    assert(self.view()[i as int] == template_view(self.templates@[i as int]));
                    assert(self.view()[i as int] == template_view(t));
                }
                return Some(t);
            }
            i += 1;
        }
        proof {
            if id_listed(self.view(), id@) {
                let k = choose|k: int| 0 <= k < self.view().len() && #[trigger] self.view()[k].id == id@;
                lemma_view_fields(self.templates@[k]);
                assert(self.view()[k] == template_view(self.templates@[k]));
            }
        }
        None
    }
}

impl TemplatesService for BuiltInTemplates {
    /// The built-in templates, in name order.
    fn list(&self) -> (r: Vec<Template>)
        ensures
            template_views(r@) == self.view(),
            names_sorted(template_views(r@)),
    {
        self.templates()
    }

    /// The built-in template with id `id`, if there is one.
    fn get(&self, id: &str) -> (r: Option<Template>)
        ensures
            match r {
                Some(t) => listed_as(self.view(), id@, template_view(t)),
                None => !id_listed(self.view(), id@),
            },
    {
        self.find(id)
    }
}

/// One catalogue of the built-in and the user templates, stably sorted by
/// name (built-ins first among equal names).
pub fn merged_catalogue(built_in: Vec<Template>, user: Vec<Template>) -> (r: Vec<Template>)
    ensures
        r@ == by_name(built_in@ + user@),
{
    let mut all = built_in;
    let mut u = user;
    all.append(&mut u);
    sort_templates_by_name(all)
}

/// The built-in templates with the user's layered over them.
pub struct LayeredTemplatesService<U: TemplatesService> {
    built_in: BuiltInTemplates,
    user: U,
}

impl<U: TemplatesService> LayeredTemplatesService<U> {
    /// The built-in catalogue.
    pub closed spec fn built_in_view(&self) -> Seq<TemplateView> {
        self.built_in.view()
    }

    /// The user catalogue.
    pub closed spec fn user_view(&self) -> U {
        self.user
    }

    /// The catalogue over `built_in` and `user`.
    pub fn new(built_in: BuiltInTemplates, user: U) -> (r: Self)
        ensures
            r.built_in_view() == built_in.view(),
            r.user_view() == user,
    {
        LayeredTemplatesService { built_in, user }
    }

    /// The user catalogue, for saving new templates.
    pub fn user_loader(&self) -> (r: &U)
        ensures
            *r == self.user_view(),
    {
        &self.user
    }
}

impl<U: TemplatesService> TemplatesService for LayeredTemplatesService<U> {
    /// Built-in and user templates together, sorted by name; what the user
    /// catalogue lists is its own.
    fn list(&self) -> (r: Vec<Template>)
        ensures
            exists|b: Seq<Template>, u: Seq<Template>|
                #![trigger by_name(b + u)]
                template_views(b) == self.built_in_view() && r@ == by_name(b + u),
    {
        let b = self.built_in.templates();
        let u = self.user.list();
        let ghost bv = b@;
        let ghost uv = u@;
        let r = merged_catalogue(b, u);
        assert(template_views(bv) == self.built_in_view() && r@ == by_name(bv + uv));
        r
    }

    /// The user's template with that id, else the built-in one; `None` only
    /// when neither has it. What the user catalogue answers is its own.
    fn get(&self, id: &str) -> (r: Option<Template>)
        ensures
            exists|u: Option<Template>|
                #![trigger call_ensures(U::get, (&self.user_view(), id), u)]
                call_ensures(U::get, (&self.user_view(), id), u) && match u {
                    Some(t) => r == Some(t),
                    None => match r {
                        Some(t) => listed_as(self.built_in_view(), id@, template_view(t)),
                        None => !id_listed(self.built_in_view(), id@),
                    },
                },
            r is None ==> !id_listed(self.built_in_view(), id@),
    {
        let user_hit = self.user.get(id);
        let ghost asked = user_hit;
        let r = match user_hit {
            Some(t) => Some(t),
            None => self.built_in.find(id),
        };
        assert(call_ensures(U::get, (&self.user_view(), id), asked));
        r
    }
}

} // verus!
