//! Seeding a project's document tree: the rows to insert for a template's
//! structure or an imported tree, depth first (each node before its
//! children), each with a fresh id, its
//! parent's id and its position among its siblings. Inserting them is the
//! caller's.
use vstd::prelude::*;
use vstd::string::*;

use crate::ai_validators::opt_view;
use crate::domain::{DocumentType, TemplateNode};
use crate::importer::markdown::{node_view, nodes_view, NodeView};
use crate::importer::ImportNode;
use crate::ids::new_id;
use crate::storage::search::{seed_content, seed_content_exec};
use crate::text::{string_of, trim, trim_str};
use crate::user_templates::{slot_view, slot_views, SlotView};

verus! {

/// A document row to insert.
#[derive(Debug)]
pub struct SeedRow {
    pub id: String,
    pub parent_id: Option<String>,
    pub title: String,
    pub doc_type: DocumentType,
    pub content: Option<String>,
    pub position: i64,
}

/// What a row holds. Its parent is the index of an earlier row of the
/// same seeding, or `None` for the node the seeding hangs under.
pub struct RowShape {
    pub parent: Option<int>,
    pub title: Seq<char>,
    pub doc_type: DocumentType,
    pub content: Option<Seq<char>>,
    pub position: int,
}

/// The row of the template slot `n`, the `position`-th of its siblings.
pub open spec fn template_row(n: SlotView, parent: Option<int>, position: int) -> RowShape {
    RowShape {
        parent,
        title: trim(n.title),
        doc_type: n.doc_type,
        content: seed_content(n.synopsis),
        position,
    }
}

/// The rows of a list of template slots hanging under `parent`, the first
/// landing at index `base`: each slot, then its children's rows, in
/// order.
pub open spec fn template_rows(nodes: Seq<SlotView>, parent: Option<int>, base: int) -> Seq<RowShape>
    decreases nodes,
{
    if nodes.len() == 0 {
        Seq::empty()
    } else {
        let prev = template_rows(nodes.drop_last(), parent, base);
        let at = base + prev.len();
        prev.push(template_row(nodes.last(), parent, nodes.len() - 1)) + template_rows(
            nodes.last().children,
            Some(at),
            at + 1,
        )
    }
}

/// Row `k` of `rows` holds `sh`; a row without a parent index hangs under
/// `given`.
pub open spec fn row_holds(rows: Seq<SeedRow>, k: int, sh: RowShape, given: Option<Seq<char>>) -> bool {
    &&& rows[k].title@ == sh.title
    &&& rows[k].doc_type == sh.doc_type
    &&& opt_view(rows[k].content) == sh.content
    &&& rows[k].position == sh.position
    &&& match sh.parent {
        None => opt_view(rows[k].parent_id) == given,
        Some(p) => 0 <= p < k && opt_view(rows[k].parent_id) == Some(rows[p].id@),
    }
}

/// The parent index as an integer.
pub open spec fn index_of(p: Option<usize>) -> Option<int> {
    match p {
        Some(i) => Some(i as int),
        None => None,
    }
}

/// The id of the row a new row hangs under.
fn parent_id_for(out: &Vec<SeedRow>, parent: Option<usize>, given: &Option<String>) -> (r: Option<String>)
    requires
        parent matches Some(p) ==> p < out@.len(),
    ensures
        opt_view(r) == match parent {
            Some(p) => Some(out@[p as int].id@),
            None => opt_view(*given),
        },
{
    match parent {
        Some(p) => Some(out[p].id.clone()),
        None => match given {
            Some(g) => Some(g.clone()),
            None => None,
        },
    }
}

/// The views of a prefix are the prefix of the views.
proof fn lemma_slot_views(s: Seq<TemplateNode>)
    ensures
        slot_views(s).len() == s.len(),
        forall|i: int| 0 <= i < s.len() ==> #[trigger] slot_views(s)[i] == slot_view(s[i]),
        forall|j: int| 0 <= j <= s.len() ==> #[trigger] slot_views(s.take(j)) == slot_views(s).take(j),
    decreases s.len(),
{
    if s.len() > 0 {
        lemma_slot_views(s.drop_last());
        assert forall|j: int| 0 <= j <= s.len() implies #[trigger] slot_views(s.take(j)) == slot_views(
            s,
        ).take(j) by {
            if j == s.len() {
                assert(s.take(j) =~= s);
                assert(slot_views(s).take(j) =~= slot_views(s));
            } else {
                assert(s.take(j) =~= s.drop_last().take(j));
                assert(slot_views(s).take(j) =~= slot_views(s.drop_last()).take(j));
            }
        }
    } else {
        assert forall|j: int| 0 <= j <= s.len() implies #[trigger] slot_views(s.take(j)) == slot_views(
            s,
        ).take(j) by {
            assert(s.take(j) =~= s);
            assert(slot_views(s).take(j) =~= slot_views(s));
        }
    }
}

/// Each slot gives at least its own row, and a prefix of the slots never
/// gives more rows than all of them.
proof fn lemma_template_rows_len(v: Seq<SlotView>, parent: Option<int>, base: int, j: int)
    requires
        0 <= j <= v.len(),
    ensures
        template_rows(v, parent, base).len() >= v.len(),
        template_rows(v.take(j), parent, base).len() <= template_rows(v, parent, base).len(),
    decreases v.len(),
{
    if v.len() > 0 {
        if j == v.len() {
            assert(v.take(j) =~= v);
            lemma_template_rows_len(v.drop_last(), parent, base, 0);
        } else {
            assert(v.take(j) =~= v.drop_last().take(j));
            lemma_template_rows_len(v.drop_last(), parent, base, j);
        }
    } else {
        assert(v.take(j) =~= v);
    }
}

fn seed_template_into(
    nodes: &Vec<TemplateNode>,
    parent: Option<usize>,
    given: &Option<String>,
    out: &mut Vec<SeedRow>,
)
    requires
        parent matches Some(p) ==> p < old(out)@.len(),
        old(out)@.len() + template_rows(slot_views(nodes@), index_of(parent), old(out)@.len() as int).len()
            <= i64::MAX,
    ensures
        final(out)@.len() == old(out)@.len() + template_rows(
            slot_views(nodes@),
            index_of(parent),
            old(out)@.len() as int,
        ).len(),
        forall|k: int| 0 <= k < old(out)@.len() ==> #[trigger] final(out)@[k] == old(out)@[k],
        forall|k: int|
            0 <= k < template_rows(slot_views(nodes@), index_of(parent), old(out)@.len() as int).len()
                ==> #[trigger] row_holds(
                final(out)@,
                old(out)@.len() + k,
                template_rows(slot_views(nodes@), index_of(parent), old(out)@.len() as int)[k],
                opt_view(*given),
            ),
    decreases nodes,
{
    let ghost base = out@.len() as int;
    let ghost start = out@;
    let ghost v = slot_views(nodes@);
    let ghost pp = index_of(parent);
    proof {
        lemma_slot_views(nodes@);
        lemma_template_rows_len(v, pp, base, 0);
    }
    let mut i: usize = 0;
    while i < nodes.len()
        invariant
            i <= nodes@.len(),
            v == slot_views(nodes@),
            v.len() == nodes@.len(),
            forall|j: int| 0 <= j < nodes@.len() ==> #[trigger] v[j] == slot_view(nodes@[j]),
            pp == index_of(parent),
            base == start.len(),
            parent matches Some(p) ==> p < base,
            base + template_rows(v, pp, base).len() <= i64::MAX,
            out@.len() == base + template_rows(v.take(i as int), pp, base).len(),
            forall|k: int| 0 <= k < base ==> #[trigger] out@[k] == start[k],
            forall|k: int|
                0 <= k < template_rows(v.take(i as int), pp, base).len() ==> #[trigger] row_holds(
                    out@,
                    base + k,
                    template_rows(v.take(i as int), pp, base)[k],
                    opt_view(*given),
                ),
        decreases nodes@.len() - i,
    {
        let ghost pre = template_rows(v.take(i as int), pp, base);
        let ghost mid = out@;
        proof {
            lemma_template_rows_len(v, pp, base, i + 1);
            assert(v.take(i + 1).drop_last() =~= v.take(i as int));
            assert(v.take(i + 1).last() == v[i as int]);
            lemma_template_rows_len(v.take(i + 1), pp, base, 0);
        }
        let node = &nodes[i];
        let pid = parent_id_for(out, parent, given);
        let title = string_of(&trim_str(node.title.as_str()));
        let content = seed_content_exec(&node.synopsis);
        let at = out.len();
        out.push(
            SeedRow {
                id: new_id(),
                parent_id: pid,
                title,
                doc_type: node.doc_type,
                content,
                position: i as i64,
            },
        );
        let ghost pushed = out@;
        let ghost sub = template_rows(slot_views(node.children@), Some(at as int), at + 1);
        proof {
            assert(slot_view(nodes@[i as int]).children == slot_views(node.children@));
            assert(template_rows(v.take(i + 1), pp, base) == pre.push(
                template_row(v[i as int], pp, i as int),
            ) + sub);
        }
        seed_template_into(&node.children, Some(at), given, out);
        proof {
            let full = template_rows(v.take(i + 1), pp, base);
            assert forall|k: int| 0 <= k < base implies #[trigger] out@[k] == start[k] by {
                assert(out@[k] == pushed[k]);
                assert(pushed[k] == mid[k]);
            }
            assert forall|k: int| 0 <= k < full.len() implies #[trigger] row_holds(
                out@,
                base + k,
                full[k],
                opt_view(*given),
            ) by {
                if k < pre.len() {
                    assert(full[k] == pre[k]);
                    assert(row_holds(mid, base + k, pre[k], opt_view(*given)));
                    assert(out@[base + k] == mid[base + k]);
                    match pre[k].parent {
                        Some(p) => {
                            assert(out@[p] == mid[p]);
                        },
                        None => {},
                    }
                } else if k == pre.len() {
                    assert(full[k] == template_row(v[i as int], pp, i as int));
                    assert(out@[at as int] == pushed[at as int]);
                    match parent {
                        Some(p) => {
                            assert(out@[p as int] == mid[p as int]);
                        },
                        None => {},
                    }
                } else {
                    assert(full[k] == sub[k - pre.len() - 1]);
                    assert(row_holds(out@, at + 1 + (k - pre.len() - 1), sub[k - pre.len() - 1], opt_view(*given)));
                }
            }
        }
        i += 1;
    }
    proof {
        assert(v.take(nodes@.len() as int) =~= v);
    }
}

/// The rows that seed a template's structure under `parent_id` (`None`:
/// at the top of the project): each slot with a fresh id, its trimmed
/// title and type, its synopsis as escaped paragraph content when not
/// blank, and its position among its siblings, followed by its
/// children's rows.
pub fn template_seed_rows(parent_id: Option<String>, nodes: &Vec<TemplateNode>) -> (rows: Vec<SeedRow>)
    requires
        template_rows(slot_views(nodes@), None, 0).len() <= i64::MAX,
    ensures
        rows@.len() == template_rows(slot_views(nodes@), None, 0).len(),
        forall|k: int|
            0 <= k < rows@.len() ==> #[trigger] row_holds(
                rows@,
                k,
                template_rows(slot_views(nodes@), None, 0)[k],
                opt_view(parent_id),
            ),
{
    let mut out: Vec<SeedRow> = Vec::new();
    seed_template_into(nodes, None, &parent_id, &mut out);
    proof {
        assert forall|k: int| 0 <= k < out@.len() implies #[trigger] row_holds(
            out@,
            k,
            template_rows(slot_views(nodes@), None, 0)[k],
            opt_view(parent_id),
        ) by {
            assert(row_holds(out@, 0 + k, template_rows(slot_views(nodes@), None, 0)[k], opt_view(parent_id)));
        }
    }
    out
}

/// The row of the imported node `n`, the `position`-th of its siblings.
pub open spec fn import_row(n: NodeView, parent: Option<int>, position: int) -> RowShape {
    RowShape {
        parent,
        title: trim(n.title),
        doc_type: if n.children.len() == 0 {
            DocumentType::Chapter
        } else {
            DocumentType::Folder
        },
        content: if n.children.len() == 0 && n.html.len() > 0 {
            Some(n.html)
        } else {
            None
        },
        position,
    }
}

/// The rows of a list of imported nodes hanging under `parent`, the first
/// landing at index `base`: each node, then its children's rows, in order.
pub open spec fn import_rows(nodes: Seq<NodeView>, parent: Option<int>, base: int) -> Seq<RowShape>
    decreases nodes,
{
    if nodes.len() == 0 {
        Seq::empty()
    } else {
        let prev = import_rows(nodes.drop_last(), parent, base);
        let at = base + prev.len();
        prev.push(import_row(nodes.last(), parent, nodes.len() - 1)) + import_rows(
            nodes.last().children,
            Some(at),
            at + 1,
        )
    }
}

/// The views of a prefix are the prefix of the views.
proof fn lemma_nodes_view(s: Seq<ImportNode>)
    ensures
        nodes_view(s).len() == s.len(),
        forall|i: int| 0 <= i < s.len() ==> #[trigger] nodes_view(s)[i] == node_view(s[i]),
        forall|j: int| 0 <= j <= s.len() ==> #[trigger] nodes_view(s.take(j)) == nodes_view(s).take(j),
    decreases s.len(),
{
    if s.len() > 0 {
        lemma_nodes_view(s.drop_last());
        assert forall|j: int| 0 <= j <= s.len() implies #[trigger] nodes_view(s.take(j)) == nodes_view(
            s,
        ).take(j) by {
            if j == s.len() {
                assert(s.take(j) =~= s);
                assert(nodes_view(s).take(j) =~= nodes_view(s));
            } else {
                assert(s.take(j) =~= s.drop_last().take(j));
                assert(nodes_view(s).take(j) =~= nodes_view(s.drop_last()).take(j));
            }
        }
    } else {
        assert forall|j: int| 0 <= j <= s.len() implies #[trigger] nodes_view(s.take(j)) == nodes_view(
            s,
        ).take(j) by {
            assert(s.take(j) =~= s);
            assert(nodes_view(s).take(j) =~= nodes_view(s));
        }
    }
}

/// Each node gives at least its own row, and a prefix of the nodes never
/// gives more rows than all of them.
proof fn lemma_import_rows_len(v: Seq<NodeView>, parent: Option<int>, base: int, j: int)
    requires
        0 <= j <= v.len(),
    ensures
        import_rows(v, parent, base).len() >= v.len(),
        import_rows(v.take(j), parent, base).len() <= import_rows(v, parent, base).len(),
    decreases v.len(),
{
    if v.len() > 0 {
        if j == v.len() {
            assert(v.take(j) =~= v);
            lemma_import_rows_len(v.drop_last(), parent, base, 0);
        } else {
            assert(v.take(j) =~= v.drop_last().take(j));
            lemma_import_rows_len(v.drop_last(), parent, base, j);
        }
    } else {
        assert(v.take(j) =~= v);
    }
}

fn seed_import_into(
    nodes: &Vec<ImportNode>,
    parent: Option<usize>,
    given: &Option<String>,
    out: &mut Vec<SeedRow>,
)
    requires
        parent matches Some(p) ==> p < old(out)@.len(),
        old(out)@.len() + import_rows(nodes_view(nodes@), index_of(parent), old(out)@.len() as int).len()
            <= i64::MAX,
    ensures
        final(out)@.len() == old(out)@.len() + import_rows(
            nodes_view(nodes@),
            index_of(parent),
            old(out)@.len() as int,
        ).len(),
        forall|k: int| 0 <= k < old(out)@.len() ==> #[trigger] final(out)@[k] == old(out)@[k],
        forall|k: int|
            0 <= k < import_rows(nodes_view(nodes@), index_of(parent), old(out)@.len() as int).len()
                ==> #[trigger] row_holds(
                final(out)@,
                old(out)@.len() + k,
                import_rows(nodes_view(nodes@), index_of(parent), old(out)@.len() as int)[k],
                opt_view(*given),
            ),
    decreases nodes,
{
    let ghost base = out@.len() as int;
    let ghost start = out@;
    let ghost v = nodes_view(nodes@);
    let ghost pp = index_of(parent);
    proof {
        lemma_nodes_view(nodes@);
        lemma_import_rows_len(v, pp, base, 0);
    }
    let mut i: usize = 0;
    while i < nodes.len()
        invariant
            i <= nodes@.len(),
            v == nodes_view(nodes@),
            v.len() == nodes@.len(),
            forall|j: int| 0 <= j < nodes@.len() ==> #[trigger] v[j] == node_view(nodes@[j]),
            pp == index_of(parent),
            base == start.len(),
            parent matches Some(p) ==> p < base,
            base + import_rows(v, pp, base).len() <= i64::MAX,
            out@.len() == base + import_rows(v.take(i as int), pp, base).len(),
            forall|k: int| 0 <= k < base ==> #[trigger] out@[k] == start[k],
            forall|k: int|
                0 <= k < import_rows(v.take(i as int), pp, base).len() ==> #[trigger] row_holds(
                    out@,
                    base + k,
                    import_rows(v.take(i as int), pp, base)[k],
                    opt_view(*given),
                ),
        decreases nodes@.len() - i,
    {
        let ghost pre = import_rows(v.take(i as int), pp, base);
        let ghost mid = out@;
        proof {
            lemma_import_rows_len(v, pp, base, i + 1);
            assert(v.take(i + 1).drop_last() =~= v.take(i as int));
            assert(v.take(i + 1).last() == v[i as int]);
            lemma_import_rows_len(v.take(i + 1), pp, base, 0);
        }
        let node = &nodes[i];
        let pid = parent_id_for(out, parent, given);
        let title = string_of(&trim_str(node.title.as_str()));
        let leaf = node.children.len() == 0;
        let doc_type = if leaf {
            DocumentType::Chapter
        } else {
            DocumentType::Folder
        };
        let content = if leaf && node.content_html.as_str().unicode_len() > 0 {
            Some(node.content_html.clone())
        } else {
            None
        };
        let at = out.len();
        out.push(
            SeedRow {
                id: new_id(),
                parent_id: pid,
                title,
                doc_type,
                content,
                position: i as i64,
            },
        );
        let ghost pushed = out@;
        let ghost sub = import_rows(nodes_view(node.children@), Some(at as int), at + 1);
        proof {
            assert(node_view(nodes@[i as int]).children == nodes_view(node.children@));
            assert(import_rows(v.take(i + 1), pp, base) == pre.push(
                import_row(v[i as int], pp, i as int),
            ) + sub);
        }
        seed_import_into(&node.children, Some(at), given, out);
        proof {
            let full = import_rows(v.take(i + 1), pp, base);
            assert forall|k: int| 0 <= k < base implies #[trigger] out@[k] == start[k] by {
                assert(out@[k] == pushed[k]);
                assert(pushed[k] == mid[k]);
            }
            assert forall|k: int| 0 <= k < full.len() implies #[trigger] row_holds(
                out@,
                base + k,
                full[k],
                opt_view(*given),
            ) by {
                if k < pre.len() {
                    assert(full[k] == pre[k]);
                    assert(row_holds(mid, base + k, pre[k], opt_view(*given)));
                    assert(out@[base + k] == mid[base + k]);
                    match pre[k].parent {
                        Some(p) => {
                            assert(out@[p] == mid[p]);
                        },
                        None => {},
                    }
                } else if k == pre.len() {
                    assert(full[k] == import_row(v[i as int], pp, i as int));
                    assert(out@[at as int] == pushed[at as int]);
                    match parent {
                        Some(p) => {
                            assert(out@[p as int] == mid[p as int]);
                        },
                        None => {},
                    }
                } else {
                    assert(full[k] == sub[k - pre.len() - 1]);
                    assert(row_holds(out@, at + 1 + (k - pre.len() - 1), sub[k - pre.len() - 1], opt_view(*given)));
                }
            }
        }
        i += 1;
    }
    proof {
        assert(v.take(nodes@.len() as int) =~= v);
    }
}

/// The rows that put an imported tree under `parent_id` (`None`: at the
/// top of the project): each node with a fresh id, its trimmed title, as a
/// chapter carrying its HTML when it is a leaf (no content when that HTML
/// is empty) and as a folder without content otherwise, and its position
/// among its siblings, followed by its children's rows.
pub fn import_seed_rows(parent_id: Option<String>, nodes: &Vec<ImportNode>) -> (rows: Vec<SeedRow>)
    requires
        import_rows(nodes_view(nodes@), None, 0).len() <= i64::MAX,
    ensures
        rows@.len() == import_rows(nodes_view(nodes@), None, 0).len(),
        forall|k: int|
            0 <= k < rows@.len() ==> #[trigger] row_holds(
                rows@,
                k,
                import_rows(nodes_view(nodes@), None, 0)[k],
                opt_view(parent_id),
            ),
{
    let mut out: Vec<SeedRow> = Vec::new();
    seed_import_into(nodes, None, &parent_id, &mut out);
    proof {
        assert forall|k: int| 0 <= k < out@.len() implies #[trigger] row_holds(
            out@,
            k,
            import_rows(nodes_view(nodes@), None, 0)[k],
            opt_view(parent_id),
        ) by {
            assert(row_holds(out@, 0 + k, import_rows(nodes_view(nodes@), None, 0)[k], opt_view(parent_id)));
        }
    }
    out
}

} // verus!
