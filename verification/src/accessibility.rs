//! The page's accessibility tree, built from the flat node list the browser
//! reports.

use vstd::prelude::*;

verus! {

/// One node of the browser's flat accessibility node list, with its
/// property values already turned into text.
#[derive(Debug, Clone)]
pub struct RawAxNode {
    /// The node's id.
    pub node_id: String,
    /// The parent's id, if the browser names one.
    pub parent_id: Option<String>,
    /// The children's ids, in order.
    pub child_ids: Option<Vec<String>>,
    /// Whether the node is hidden from assistive technology.
    pub ignored: bool,
    pub role: Option<String>,
    pub name: Option<String>,
    pub description: Option<String>,
    pub value: Option<String>,
}

/// One node of the page's accessibility tree.
#[derive(Debug)]
pub struct AXNode {
    /// ARIA role (`"button"`, `"link"`, …).
    pub role: Option<String>,
    /// Accessible name.
    pub name: Option<String>,
    /// Accessible description.
    pub description: Option<String>,
    /// Current value of inputs and range widgets.
    pub value: Option<String>,
    /// Whether the node is hidden from assistive technology.
    pub ignored: bool,
    /// Child nodes in document order.
    pub children: Vec<AXNode>,
}

/// A tree node as plain values.
pub ghost struct SpecAxNode {
    pub role: Option<Seq<char>>,
    pub name: Option<Seq<char>>,
    pub description: Option<Seq<char>>,
    pub value: Option<Seq<char>>,
    pub ignored: bool,
    pub children: Seq<SpecAxNode>,
}

/// The text of an optional string.
pub open spec fn opt_text(o: Option<String>) -> Option<Seq<char>> {
    match o {
        Some(s) => Some(s@),
        None => None,
    }
}

/// The tree node as plain values.
pub open spec fn ax_view(n: AXNode) -> SpecAxNode
    decreases n,
{
    SpecAxNode {
        role: opt_text(n.role),
        name: opt_text(n.name),
        description: opt_text(n.description),
        value: opt_text(n.value),
        ignored: n.ignored,
        children: Seq::new(
            n.children@.len(),
            |i: int|
                {
                    if 0 <= i < n.children@.len() {
                        ax_view(n.children@[i])
                    } else {
                        arbitrary()
                    }
                },
        ),
    }
}

/// The position of the last node with id `id` (later nodes with the same
/// id hide earlier ones).
pub open spec fn last_with_id(nodes: Seq<RawAxNode>, id: Seq<char>) -> Option<int>
    decreases nodes.len(),
{
    if nodes.len() == 0 {
        None
    } else if nodes.last().node_id@ == id {
        Some(nodes.len() - 1)
    } else {
        last_with_id(nodes.drop_last(), id)
    }
}

/// The child ids of node `i`; none when it lists none.
pub open spec fn child_ids_of(nodes: Seq<RawAxNode>, i: int) -> Seq<Seq<char>> {
    match nodes[i].child_ids {
        Some(v) => v@.map_values(|s: String| s@),
        None => seq![],
    }
}

/// The positions of the children of a node listed by `ids`, in order:
/// each id that names a node that is not ignored.
pub open spec fn kids_of(nodes: Seq<RawAxNode>, ids: Seq<Seq<char>>) -> Seq<int>
    decreases ids.len(),
{
    if ids.len() == 0 {
        seq![]
    } else {
        let rest = kids_of(nodes, ids.drop_last());
        match last_with_id(nodes, ids.last()) {
            Some(j) => if nodes[j].ignored {
                rest
            } else {
                rest.push(j)
            },
            None => rest,
        }
    }
}

/// The children of node `i`.
pub open spec fn kids(nodes: Seq<RawAxNode>, i: int) -> Seq<int> {
    kids_of(nodes, child_ids_of(nodes, i))
}

/// `rank` puts every child below its parent: following children never
/// returns to a node.
pub open spec fn ranks_children(nodes: Seq<RawAxNode>, rank: spec_fn(int) -> nat) -> bool {
    forall|i: int, t: int|
        0 <= i < nodes.len() && 0 <= t < kids(nodes, i).len() ==> #[trigger] rank(kids(nodes, i)[t])
            < rank(i)
}

/// The tree under node `i`: its properties, and the trees of its
/// children in order.
pub open spec fn ax_tree(nodes: Seq<RawAxNode>, rank: spec_fn(int) -> nat, i: int) -> SpecAxNode
    decreases rank(i), 1nat, 0nat,
{
    SpecAxNode {
        role: opt_text(nodes[i].role),
        name: opt_text(nodes[i].name),
        description: opt_text(nodes[i].description),
        value: opt_text(nodes[i].value),
        ignored: nodes[i].ignored,
        children: ax_forest(nodes, rank, i, kids(nodes, i).len()),
    }
}

/// The trees of the first `k` children of node `p`.
pub open spec fn ax_forest(nodes: Seq<RawAxNode>, rank: spec_fn(int) -> nat, p: int, k: nat) -> Seq<
    SpecAxNode,
>
    decreases rank(p), 0nat, k,
{
    if k == 0 || k > kids(nodes, p).len() {
        seq![]
    } else if ranks_children(nodes, rank) && 0 <= p < nodes.len() {
        ax_forest(nodes, rank, p, (k - 1) as nat).push(ax_tree(nodes, rank, kids(nodes, p)[k - 1]))
    } else {
        seq![]
    }
}


/// The first node whose parent is not named, or names no node: the root.
pub open spec fn root_from(nodes: Seq<RawAxNode>, k: int) -> Option<int>
    decreases nodes.len() - k,
{
    if k < 0 || k >= nodes.len() {
        None
    } else if nodes[k].parent_id matches Some(p) && last_with_id(nodes, p@) is Some {
        root_from(nodes, k + 1)
    } else {
        Some(k)
    }
}

proof fn lemma_last_with_id(nodes: Seq<RawAxNode>, id: Seq<char>)
    ensures
        last_with_id(nodes, id) matches Some(j) ==> 0 <= j < nodes.len() && nodes[j].node_id@ == id,
    decreases nodes.len(),
{
    if nodes.len() > 0 && nodes.last().node_id@ != id {
        lemma_last_with_id(nodes.drop_last(), id);
    }
}

proof fn lemma_kids_prefix(nodes: Seq<RawAxNode>, ids: Seq<Seq<char>>, t: int)
    requires
        0 <= t <= ids.len(),
    ensures
        kids_of(nodes, ids.take(t)).len() <= kids_of(nodes, ids).len(),
        forall|m: int|
            0 <= m < kids_of(nodes, ids.take(t)).len() ==> #[trigger] kids_of(nodes, ids.take(t))[m]
                == kids_of(nodes, ids)[m],
    decreases ids.len(),
{
    if t == ids.len() {
        assert(ids.take(t) =~= ids);
    } else {
        assert(ids.drop_last().take(t) =~= ids.take(t));
        lemma_kids_prefix(nodes, ids.drop_last(), t);
    }
}

proof fn lemma_forest(nodes: Seq<RawAxNode>, rank: spec_fn(int) -> nat, p: int, k: nat)
    requires
        ranks_children(nodes, rank),
        0 <= p < nodes.len(),
        k <= kids(nodes, p).len(),
    ensures
        ax_forest(nodes, rank, p, k).len() == k,
        forall|m: int| 0 <= m < k ==> #[trigger] ax_forest(nodes, rank, p, k)[m] == ax_tree(
            nodes,
            rank,
            kids(nodes, p)[m],
        ),
    decreases k,
{
    if k > 0 {
        lemma_forest(nodes, rank, p, (k - 1) as nat);
    }
}

fn last_node_with_id(nodes: &Vec<RawAxNode>, id: &String) -> (r: Option<usize>)
    ensures
        match r {
            Some(j) => last_with_id(nodes@, id@) == Some(j as int),
            None => last_with_id(nodes@, id@) is None,
        },
{
    let mut k: usize = nodes.len();
    assert(nodes@.take(k as int) =~= nodes@);
    while k > 0
        invariant
            k <= nodes@.len(),
            last_with_id(nodes@, id@) == last_with_id(nodes@.take(k as int), id@),
        decreases k,
    {
        assert(nodes@.take(k as int).drop_last() =~= nodes@.take(k - 1));
        assert(nodes@.take(k as int).last() == nodes@[k - 1]);
        if nodes[k - 1].node_id == *id {
            return Some(k - 1);
        }
        k = k - 1;
    }
    None
}

fn clone_opt(o: &Option<String>) -> (r: Option<String>)
    ensures
        opt_text(r) == opt_text(*o),
{
    match o {
        Some(s) => Some(s.clone()),
        None => None,
    }
}

/// The tree under node `i`.
fn convert(nodes: &Vec<RawAxNode>, i: usize, Ghost(rank): Ghost<spec_fn(int) -> nat>) -> (r: AXNode)
    requires
        ranks_children(nodes@, rank),
        i < nodes@.len(),
    ensures
        ax_view(r) == ax_tree(nodes@, rank, i as int),
    decreases rank(i as int),
{
    let ghost ids = child_ids_of(nodes@, i as int);
    let ghost ks = kids(nodes@, i as int);
    let empty: Vec<String> = Vec::new();
    let list: &Vec<String> = match &nodes[i].child_ids {
        Some(v) => v,
        None => &empty,
    };
    assert(list@.map_values(|s: String| s@) =~= ids);
    let mut children: Vec<AXNode> = Vec::new();
    let mut t: usize = 0;
    while t < list.len()
        invariant
            ranks_children(nodes@, rank),
            i < nodes@.len(),
            ids == child_ids_of(nodes@, i as int),
            ks == kids(nodes@, i as int),
            list@.map_values(|s: String| s@) == ids,
            t <= list@.len(),
            children@.len() == kids_of(nodes@, ids.take(t as int)).len(),
            forall|m: int| 0 <= m < children@.len() ==> #[trigger] ax_view(children@[m]) == ax_tree(
                nodes@,
                rank,
                ks[m],
            ),
        decreases list@.len() - t,
    {
        proof {
            assert(ids.take(t + 1).drop_last() =~= ids.take(t as int));
            assert(ids.take(t + 1).last() == list@[t as int]@);
            lemma_kids_prefix(nodes@, ids, t + 1);
        }
        match last_node_with_id(nodes, &list[t]) {
            Some(j) => {
                proof {
                    lemma_last_with_id(nodes@, list@[t as int]@);
                }
                if !nodes[j].ignored {
                    let ghost m = children@.len() as int;
                    assert(kids_of(nodes@, ids.take(t + 1))[m] == j as int);
                    assert(ks[m] == j as int);
                    assert(rank(ks[m]) < rank(i as int));
                    let c = convert(nodes, j, Ghost(rank));
                    let ghost before = children@;
                    children.push(c);
                    assert forall|q: int| 0 <= q < children@.len() implies #[trigger] ax_view(children@[q])
                        == ax_tree(nodes@, rank, ks[q]) by {
                        if q < before.len() {
                            assert(children@[q] == before[q]);
                        }
                    }
                }
            },
            None => {},
        }
        t = t + 1;
    }
    proof {
        assert(ids.take(list@.len() as int) =~= ids);
        lemma_forest(nodes@, rank, i as int, ks.len());
    }
    let r = AXNode {
        role: clone_opt(&nodes[i].role),
        name: clone_opt(&nodes[i].name),
        description: clone_opt(&nodes[i].description),
        value: clone_opt(&nodes[i].value),
        ignored: nodes[i].ignored,
        children,
    };
    proof {
        let av = ax_view(r).children;
        let af = ax_forest(nodes@, rank, i as int, ks.len());
        assert(r.children@.len() == ks.len());
        assert(av.len() == af.len());
        assert forall|m: int| 0 <= m < av.len() implies av[m] == af[m] by {
            assert(av[m] == ax_view(r.children@[m]));
        }
        assert(av =~= af);
    }
    r
}

/// The page's accessibility tree: the tree under the first node whose
/// parent is not among the nodes, or `None` when every node has a parent
/// among them. Children that are ignored are left out; child ids that
/// name no node are skipped.
pub fn build_tree(nodes: &Vec<RawAxNode>) -> (r: Option<AXNode>)
    requires
        exists|rank: spec_fn(int) -> nat| ranks_children(nodes@, rank),
    ensures
        match root_from(nodes@, 0) {
            Some(i) => r matches Some(t) && ax_view(t) == ax_tree(
                nodes@,
                choose|rank: spec_fn(int) -> nat| ranks_children(nodes@, rank),
                i,
            ),
            None => r is None,
        },
{
    let ghost rank = choose|rank: spec_fn(int) -> nat| ranks_children(nodes@, rank);
    let mut k: usize = 0;
    while k < nodes.len()
        invariant
            k <= nodes@.len(),
            ranks_children(nodes@, rank),
            rank == choose|rank: spec_fn(int) -> nat| ranks_children(nodes@, rank),
            root_from(nodes@, 0) == root_from(nodes@, k as int),
        decreases nodes@.len() - k,
    {
        let is_root = match &nodes[k].parent_id {
            Some(p) => last_node_with_id(nodes, p).is_none(),
            None => true,
        };
        if is_root {
            return Some(convert(nodes, k, Ghost(rank)));
        }
        k = k + 1;
    }
    None
}

} // verus!

verus! {

proof fn lemma_kids_not_ignored(nodes: Seq<RawAxNode>, ids: Seq<Seq<char>>)
    ensures
        forall|m: int|
            0 <= m < kids_of(nodes, ids).len() ==> 0 <= #[trigger] kids_of(nodes, ids)[m] < nodes.len()
                && !nodes[kids_of(nodes, ids)[m]].ignored,
    decreases ids.len(),
{
    if ids.len() > 0 {
        let rest = kids_of(nodes, ids.drop_last());
        lemma_kids_not_ignored(nodes, ids.drop_last());
        lemma_last_with_id(nodes, ids.last());
        assert forall|m: int| 0 <= m < kids_of(nodes, ids).len() implies 0 <= #[trigger] kids_of(
            nodes,
            ids,
        )[m] < nodes.len() && !nodes[kids_of(nodes, ids)[m]].ignored by {
            if m < rest.len() {
                assert(kids_of(nodes, ids)[m] == rest[m]);
            }
        }
    }
}

/// No child in the tree is a node hidden from assistive technology: the
/// children of every node are the trees of its children that are not
/// ignored.
pub proof fn law_ignored_nodes_are_left_out(nodes: Seq<RawAxNode>, rank: spec_fn(int) -> nat, i: int)
    requires
        ranks_children(nodes, rank),
        0 <= i < nodes.len(),
    ensures
        forall|m: int|
            0 <= m < ax_tree(nodes, rank, i).children.len() ==> !(#[trigger] ax_tree(nodes, rank, i).children[m]).ignored,
{
    lemma_forest(nodes, rank, i, kids(nodes, i).len());
    lemma_kids_not_ignored(nodes, child_ids_of(nodes, i));
    assert forall|m: int| 0 <= m < ax_tree(nodes, rank, i).children.len() implies !(#[trigger] ax_tree(
        nodes,
        rank,
        i,
    ).children[m]).ignored by {
        let j = kids(nodes, i)[m];
        assert(ax_tree(nodes, rank, i).children[m] == ax_tree(nodes, rank, j));
    }
}

} // verus!
