//! Building the file tree from the entries of the Git tree at HEAD: each
//! path once (the last entry for it wins), each under the entry of its
//! parent directory, the top level and every directory in sibling order.

use vstd::prelude::*;
use crate::app::text_views;
use crate::listing::insert_text;
use crate::navigator::shown_parent;
use crate::search::{dedup, path_less, path_lt};
use crate::tree::opt_text;
use crate::text::{chars_of, str_eq};
use crate::tree::{
    insert_pos, lemma_insert_pos_bound, lemma_node_views_push, lemma_sorted_len, node_views, parent_of, path_parent, sort_nodes, sorted_nodes,
    FileTree, NodeView, TreeNode,
};

verus! {

/// One entry of a Git tree walk: a file or a directory.
#[derive(Debug)]
pub struct GitTreeEntry {
    pub name: String,
    pub path: String,
    pub is_dir: bool,
}

/// The value of an entry.
pub struct EntryView {
    pub name: Seq<char>,
    pub path: Seq<char>,
    pub is_dir: bool,
}

impl View for GitTreeEntry {
    type V = EntryView;

    open spec fn view(&self) -> EntryView {
        EntryView { name: self.name@, path: self.path@, is_dir: self.is_dir }
    }
}

/// The values of a list of entries.
pub open spec fn entry_views(v: Seq<GitTreeEntry>) -> Seq<EntryView> {
    v.map_values(|x: GitTreeEntry| x@)
}

/// The paths of a list of entries.
pub open spec fn entry_paths(e: Seq<EntryView>) -> Seq<Seq<char>> {
    e.map_values(|x: EntryView| x.path)
}

/// The last entry for the path `p`.
pub open spec fn last_entry(e: Seq<EntryView>, p: Seq<char>) -> Option<EntryView>
    decreases e.len(),
{
    if e.len() == 0 {
        None
    } else if e.last().path == p {
        Some(e.last())
    } else {
        last_entry(e.drop_last(), p)
    }
}

/// Where `x` goes among `s` when inserted after every path that `Path`'s
/// order does not put after it.
pub open spec fn path_slot(s: Seq<Seq<char>>, x: Seq<char>) -> nat
    decreases s.len(),
{
    if s.len() == 0 {
        0
    } else if path_lt(x, s[0]) {
        0
    } else {
        1 + path_slot(s.drop_first(), x)
    }
}

/// `s` in `Path`'s order, equal paths keeping their order.
pub open spec fn by_path(s: Seq<Seq<char>>) -> Seq<Seq<char>>
    decreases s.len(),
{
    if s.len() == 0 {
        s
    } else {
        let t = by_path(s.drop_last());
        t.insert(path_slot(t, s.last()) as int, s.last())
    }
}

/// The paths of the tree: each path of an entry once, in `Path`'s order.
pub open spec fn tree_path_order(e: Seq<EntryView>) -> Seq<Seq<char>> {
    by_path(dedup(entry_paths(e)))
}

/// The paths among `ps` whose shown parent is `p` (`None`: the top level), in order.
pub open spec fn paths_under(ps: Seq<Seq<char>>, p: Option<Seq<char>>) -> Seq<Seq<char>>
    decreases ps.len(),
{
    if ps.len() == 0 {
        Seq::empty()
    } else if shown_parent(ps.last()) == p {
        paths_under(ps.drop_last(), p).push(ps.last())
    } else {
        paths_under(ps.drop_last(), p)
    }
}

/// A node with `child` added as `TreeNode::add_child` adds it: into the
/// sorted children of a directory, not at all to a file.
pub open spec fn with_child(n: NodeView, child: NodeView) -> NodeView {
    if n.is_dir {
        NodeView { children: sorted_nodes(n.children.push(child)), ..n }
    } else {
        n
    }
}

/// The node of the path `p` without children.
pub open spec fn bare_node(e: Seq<EntryView>, p: Seq<char>) -> NodeView {
    let ent = last_entry(e, p).unwrap();
    NodeView {
        name: ent.name,
        path: p,
        is_dir: ent.is_dir,
        git_status: None,
        is_expanded: false,
        children: Seq::empty(),
        parent_path: parent_of(p),
    }
}

/// The node of the path `p` with its subtree, going at most `fuel` levels down.
pub open spec fn built_node(e: Seq<EntryView>, ps: Seq<Seq<char>>, p: Seq<char>, fuel: nat) -> NodeView
    decreases fuel, 0nat,
{
    if fuel == 0 {
        bare_node(e, p)
    } else {
        with_children(bare_node(e, p), e, ps, paths_under(ps, Some(p)), (fuel - 1) as nat)
    }
}

/// The node `n` with the nodes of the paths `qs` added in order.
pub open spec fn with_children(n: NodeView, e: Seq<EntryView>, ps: Seq<Seq<char>>, qs: Seq<Seq<char>>, fuel: nat) -> NodeView
    decreases fuel, qs.len(),
{
    if qs.len() == 0 {
        n
    } else {
        with_child(with_children(n, e, ps, qs.drop_last(), fuel), built_node(e, ps, qs.last(), fuel))
    }
}

/// The nodes of the paths `qs`, each with its subtree.
pub open spec fn built_nodes(e: Seq<EntryView>, ps: Seq<Seq<char>>, qs: Seq<Seq<char>>, fuel: nat) -> Seq<NodeView>
    decreases qs.len(),
{
    if qs.len() == 0 {
        Seq::empty()
    } else {
        built_nodes(e, ps, qs.drop_last(), fuel).push(built_node(e, ps, qs.last(), fuel))
    }
}

/// The top level of the tree built from the entries `e`: the nodes without
/// a shown parent, in sibling order. A tree has no more levels than paths.
pub open spec fn built_roots(e: Seq<EntryView>) -> Seq<NodeView> {
    let ps = tree_path_order(e);
    sorted_nodes(built_nodes(e, ps, paths_under(ps, None), ps.len()))
}

/// Whether every path of `ps` has an entry.
pub open spec fn all_entered(e: Seq<EntryView>, ps: Seq<Seq<char>>) -> bool {
    forall|i: int| 0 <= i < ps.len() ==> #[trigger] last_entry(e, ps[i]) is Some
}

proof fn lemma_entry_of_path(e: Seq<EntryView>, i: int)
    requires
        0 <= i < e.len(),
    ensures
        last_entry(e, e[i].path) is Some,
    decreases e.len(),
{
    if i < e.len() - 1 && e.last().path != e[i].path {
        lemma_entry_of_path(e.drop_last(), i);
    }
}

proof fn lemma_dedup_from(s: Seq<Seq<char>>, x: Seq<char>)
    requires
        dedup(s).contains(x),
    ensures
        s.contains(x),
    decreases s.len(),
{
    if s.len() > 0 {
        if dedup(s.drop_last()).contains(x) {
            lemma_dedup_from(s.drop_last(), x);
            let k = choose|k: int| 0 <= k < s.drop_last().len() && s.drop_last()[k] == x;
            assert(s[k] == x);
        } else {
            assert(dedup(s) =~= dedup(s.drop_last()).push(s.last()) || dedup(s) =~= dedup(s.drop_last()));
            assert(s[s.len() - 1] == x);
        }
    }
}

proof fn lemma_by_path_from(s: Seq<Seq<char>>, x: Seq<char>)
    requires
        by_path(s).contains(x),
    ensures
        s.contains(x),
    decreases s.len(),
{
    if s.len() > 0 {
        let t = by_path(s.drop_last());
        lemma_by_path_len(s.drop_last());
        lemma_path_slot_bound(t, s.last());
        let k = choose|k: int| 0 <= k < by_path(s).len() && by_path(s)[k] == x;
        let j = path_slot(t, s.last()) as int;
        if x == s.last() {
            assert(s[s.len() - 1] == x);
        } else {
            assert(t.insert(j, s.last())[k] == x);
            if k < j {
                assert(t[k] == x);
            } else {
                assert(t[k - 1] == x);
            }
            lemma_by_path_from(s.drop_last(), x);
            let m = choose|m: int| 0 <= m < s.drop_last().len() && s.drop_last()[m] == x;
            assert(s[m] == x);
        }
    }
}

proof fn lemma_path_slot_bound(s: Seq<Seq<char>>, x: Seq<char>)
    ensures
        path_slot(s, x) <= s.len(),
    decreases s.len(),
{
    if s.len() > 0 && !path_lt(x, s[0]) {
        lemma_path_slot_bound(s.drop_first(), x);
    }
}

proof fn lemma_by_path_len(s: Seq<Seq<char>>)
    ensures
        by_path(s).len() == s.len(),
    decreases s.len(),
{
    if s.len() > 0 {
        lemma_by_path_len(s.drop_last());
        lemma_path_slot_bound(by_path(s.drop_last()), s.last());
    }
}

proof fn lemma_tree_paths_entered(e: Seq<EntryView>)
    ensures
        all_entered(e, tree_path_order(e)),
{
    let ps = tree_path_order(e);
    assert forall|i: int| 0 <= i < ps.len() implies #[trigger] last_entry(e, ps[i]) is Some by {
        let x = ps[i];
        assert(ps.contains(x));
        lemma_by_path_from(dedup(entry_paths(e)), x);
        lemma_dedup_from(entry_paths(e), x);
        let k = choose|k: int| 0 <= k < entry_paths(e).len() && entry_paths(e)[k] == x;
        lemma_entry_of_path(e, k);
    }
}

/// Whether `n` is the node of the last entry for its path: its name and
/// kind, its parent path, collapsed and without a status.
pub open spec fn from_entry(e: Seq<EntryView>, n: NodeView) -> bool {
    match last_entry(e, n.path) {
        Some(ent) => {
            &&& n.name == ent.name
            &&& n.is_dir == ent.is_dir
            &&& n.parent_path == parent_of(n.path)
            &&& n.git_status is None
            &&& !n.is_expanded
        },
        None => false,
    }
}

/// Whether `n` comes from an entry, is shown under `parent`, holds children
/// only when it is a directory, and its children are placed under it.
pub open spec fn placed_node(e: Seq<EntryView>, n: NodeView, parent: Option<Seq<char>>) -> bool
    decreases n,
{
    &&& from_entry(e, n)
    &&& shown_parent(n.path) == parent
    &&& (!n.is_dir ==> n.children.len() == 0)
    &&& placed(e, n.children, Some(n.path))
}

/// Whether every node of `s` is placed under `parent`.
pub open spec fn placed(e: Seq<EntryView>, s: Seq<NodeView>, parent: Option<Seq<char>>) -> bool
    decreases s,
{
    if s.len() == 0 {
        true
    } else {
        placed(e, s.drop_last(), parent) && placed_node(e, s.last(), parent)
    }
}

proof fn lemma_placed_all(e: Seq<EntryView>, s: Seq<NodeView>, parent: Option<Seq<char>>)
    ensures
        placed(e, s, parent) <==> forall|i: int| 0 <= i < s.len() ==> #[trigger] placed_node(e, s[i], parent),
    decreases s.len(),
{
    if s.len() > 0 {
        lemma_placed_all(e, s.drop_last(), parent);
        if forall|i: int| 0 <= i < s.len() ==> #[trigger] placed_node(e, s[i], parent) {
            assert forall|i: int| 0 <= i < s.drop_last().len() implies #[trigger] placed_node(e, s.drop_last()[i], parent) by {
                assert(s.drop_last()[i] == s[i]);
            }
            assert(placed_node(e, s[s.len() - 1], parent));
        }
        if placed(e, s, parent) {
            assert forall|i: int| 0 <= i < s.len() implies #[trigger] placed_node(e, s[i], parent) by {
                if i < s.len() - 1 {
                    assert(s[i] == s.drop_last()[i]);
                }
            }
        }
    }
}

/// Every node of the sorted nodes is one of the nodes.
proof fn lemma_sorted_members(s: Seq<NodeView>)
    ensures
        forall|i: int| 0 <= i < sorted_nodes(s).len() ==> s.contains(#[trigger] sorted_nodes(s)[i]),
    decreases s.len(),
{
    if s.len() > 0 {
        let d = s.drop_last();
        lemma_sorted_members(d);
        let t = sorted_nodes(d);
        lemma_sorted_len(d);
        lemma_insert_pos_bound(t, s.last());
        let k = insert_pos(t, s.last()) as int;
        assert forall|i: int| 0 <= i < sorted_nodes(s).len() implies s.contains(#[trigger] sorted_nodes(s)[i]) by {
            if i == k {
                assert(s[s.len() - 1] == sorted_nodes(s)[i]);
            } else {
                let j = if i < k { i } else { i - 1 };
                assert(sorted_nodes(s)[i] == t[j]);
                assert(d.contains(t[j]));
                let m = choose|m: int| 0 <= m < d.len() && d[m] == t[j];
                assert(s[m] == d[m]);
            }
        }
    }
}

proof fn lemma_placed_sorted(e: Seq<EntryView>, s: Seq<NodeView>, parent: Option<Seq<char>>)
    requires
        placed(e, s, parent),
    ensures
        placed(e, sorted_nodes(s), parent),
{
    lemma_placed_all(e, s, parent);
    lemma_sorted_members(s);
    lemma_placed_all(e, sorted_nodes(s), parent);
    assert forall|i: int| 0 <= i < sorted_nodes(s).len() implies #[trigger] placed_node(e, sorted_nodes(s)[i], parent) by {
        assert(s.contains(sorted_nodes(s)[i]));
        let m = choose|m: int| 0 <= m < s.len() && s[m] == sorted_nodes(s)[i];
        assert(placed_node(e, s[m], parent));
    }
}

/// The paths under `p` are paths of `ps` whose shown parent is `p`.
proof fn lemma_paths_under(ps: Seq<Seq<char>>, p: Option<Seq<char>>)
    ensures
        forall|i: int| 0 <= i < paths_under(ps, p).len() ==>
            shown_parent(#[trigger] paths_under(ps, p)[i]) == p && ps.contains(paths_under(ps, p)[i]),
    decreases ps.len(),
{
    if ps.len() > 0 {
        let d = ps.drop_last();
        lemma_paths_under(d, p);
        let u = paths_under(ps, p);
        assert forall|i: int| 0 <= i < u.len() implies shown_parent(#[trigger] u[i]) == p && ps.contains(u[i]) by {
            if i < paths_under(d, p).len() {
                assert(u[i] == paths_under(d, p)[i]);
                assert(d.contains(u[i]));
                let m = choose|m: int| 0 <= m < d.len() && d[m] == u[i];
                assert(ps[m] == d[m]);
            } else {
                assert(u[i] == ps[ps.len() - 1]);
            }
        }
    }
}

/// A built node, and its subtree, are placed under the shown parent of its path.
proof fn lemma_built_node_placed(e: Seq<EntryView>, ps: Seq<Seq<char>>, q: Seq<char>, fuel: nat)
    requires
        all_entered(e, ps),
        last_entry(e, q) is Some,
    ensures
        placed_node(e, built_node(e, ps, q, fuel), shown_parent(q)),
    decreases fuel, 0nat,
{
    let b = bare_node(e, q);
    assert(placed(e, b.children, Some(q)));
    if fuel > 0 {
        let qs = paths_under(ps, Some(q));
        lemma_paths_under(ps, Some(q));
        assert forall|i: int| 0 <= i < qs.len() implies #[trigger] last_entry(e, qs[i]) is Some && shown_parent(qs[i]) == Some(q) by {
            assert(ps.contains(qs[i]));
            let m = choose|m: int| 0 <= m < ps.len() && ps[m] == qs[i];
            assert(last_entry(e, ps[m]) is Some);
        }
        lemma_children_placed(b, e, ps, qs, (fuel - 1) as nat);
    }
}

/// Adding built nodes of paths shown under `n` keeps `n` itself and its
/// children placed under it.
proof fn lemma_children_placed(n: NodeView, e: Seq<EntryView>, ps: Seq<Seq<char>>, qs: Seq<Seq<char>>, fuel: nat)
    requires
        all_entered(e, ps),
        placed(e, n.children, Some(n.path)),
        !n.is_dir ==> n.children.len() == 0,
        forall|i: int| 0 <= i < qs.len() ==> #[trigger] last_entry(e, qs[i]) is Some && shown_parent(qs[i]) == Some(n.path),
    ensures
        with_children(n, e, ps, qs, fuel) == (NodeView { children: with_children(n, e, ps, qs, fuel).children, ..n }),
        placed(e, with_children(n, e, ps, qs, fuel).children, Some(n.path)),
        !n.is_dir ==> with_children(n, e, ps, qs, fuel).children.len() == 0,
    decreases fuel, qs.len(),
{
    if qs.len() > 0 {
        let d = qs.drop_last();
        assert forall|i: int| 0 <= i < d.len() implies #[trigger] last_entry(e, d[i]) is Some && shown_parent(d[i]) == Some(n.path) by {
            assert(d[i] == qs[i]);
        }
        lemma_children_placed(n, e, ps, d, fuel);
        let m = with_children(n, e, ps, d, fuel);
        let q = qs[qs.len() - 1];
        assert(last_entry(e, q) is Some && shown_parent(q) == Some(n.path));
        lemma_built_node_placed(e, ps, q, fuel);
        let c = built_node(e, ps, q, fuel);
        if n.is_dir {
            let kids = m.children.push(c);
            assert(kids.drop_last() =~= m.children);
            assert(placed(e, kids, Some(n.path)));
            lemma_placed_sorted(e, kids, Some(n.path));
        }
    }
}

/// The built nodes of paths shown under `p` are placed under `p`.
proof fn lemma_built_nodes_placed(e: Seq<EntryView>, ps: Seq<Seq<char>>, qs: Seq<Seq<char>>, p: Option<Seq<char>>, fuel: nat)
    requires
        all_entered(e, ps),
        forall|i: int| 0 <= i < qs.len() ==> #[trigger] last_entry(e, qs[i]) is Some && shown_parent(qs[i]) == p,
    ensures
        placed(e, built_nodes(e, ps, qs, fuel), p),
    decreases qs.len(),
{
    if qs.len() > 0 {
        let d = qs.drop_last();
        assert forall|i: int| 0 <= i < d.len() implies #[trigger] last_entry(e, d[i]) is Some && shown_parent(d[i]) == p by {
            assert(d[i] == qs[i]);
        }
        lemma_built_nodes_placed(e, ps, d, p, fuel);
        let q = qs[qs.len() - 1];
        assert(last_entry(e, q) is Some && shown_parent(q) == p);
        lemma_built_node_placed(e, ps, q, fuel);
        let b = built_nodes(e, ps, qs, fuel);
        assert(b.drop_last() =~= built_nodes(e, ps, d, fuel));
    }
}

/// Every node of the tree built from Git tree entries is the node of the
/// last entry for its path (its name, kind and parent path, collapsed and
/// without a status) and sits under the node of its shown parent, the top
/// level holding the nodes without one; only directories hold children.
pub proof fn law_built_tree_is_placed(e: Seq<EntryView>)
    ensures
        ({
            let ps = tree_path_order(e);
            placed(e, built_nodes(e, ps, paths_under(ps, None), ps.len()), None)
        }),
        placed(e, built_roots(e), None),
{
    let ps = tree_path_order(e);
    lemma_tree_paths_entered(e);
    let qs = paths_under(ps, None);
    lemma_paths_under(ps, None);
    assert forall|i: int| 0 <= i < qs.len() implies #[trigger] last_entry(e, qs[i]) is Some && shown_parent(qs[i]) == None::<Seq<char>> by {
        assert(ps.contains(qs[i]));
        let m = choose|m: int| 0 <= m < ps.len() && ps[m] == qs[i];
        assert(last_entry(e, ps[m]) is Some);
    }
    lemma_built_nodes_placed(e, ps, qs, None, ps.len());
    lemma_placed_sorted(e, built_nodes(e, ps, qs, ps.len()), None);
}

/// The parent directory that `p` is shown under, if any.
fn parent_shown(p: &str) -> (r: Option<String>)
    ensures
        match r {
            Some(q) => shown_parent(p@) == Some(q@),
            None => shown_parent(p@) is None,
        },
{
    match path_parent(p) {
        Some(q) => {
            let qc = chars_of(q.as_str());
            let is_dot = qc.len() == 1 && qc[0] == '.';
            assert(is_dot == (q@ == seq!['.'])) by {
                if qc@.len() == 1 && qc@[0] == '.' {
                    assert(q@ =~= seq!['.']);
                }
            }
            if qc.len() == 0 || is_dot {
                None
            } else {
                Some(q)
            }
        },
        None => None,
    }
}

/// The last entry for the path `p`.
fn find_entry<'a>(entries: &'a Vec<GitTreeEntry>, p: &str) -> (r: Option<&'a GitTreeEntry>)
    ensures
        match r {
            Some(x) => last_entry(entry_views(entries@), p@) == Some(x@),
            None => last_entry(entry_views(entries@), p@) is None,
        },
{
    let ghost ev = entry_views(entries@);
    let mut i = entries.len();
    assert(ev.subrange(0, i as int) =~= ev);
    while i > 0
        invariant
            i <= entries@.len(),
            ev == entry_views(entries@),
            last_entry(ev, p@) == last_entry(ev.subrange(0, i as int), p@),
        decreases i,
    {
        let x = &entries[i - 1];
        let ghost pre = ev.subrange(0, i as int);
        assert(pre.last() == x@);
        assert(pre.drop_last() =~= ev.subrange(0, i - 1));
        if str_eq(x.path.as_str(), p) {
            return Some(x);
        }
        i = i - 1;
    }
    None
}

/// The paths of the entries, each once, in the order they first come.
fn unique_paths(entries: &Vec<GitTreeEntry>) -> (r: Vec<String>)
    ensures
        text_views(r@) == dedup(entry_paths(entry_views(entries@))),
{
    let ghost all = entry_paths(entry_views(entries@));
    let mut out: Vec<String> = Vec::new();
    let mut i: usize = 0;
    assert(all.subrange(0, 0) =~= Seq::<Seq<char>>::empty());
    assert(text_views(out@) =~= Seq::<Seq<char>>::empty());
    while i < entries.len()
        invariant
            i <= entries@.len(),
            all == entry_paths(entry_views(entries@)),
            text_views(out@) == dedup(all.subrange(0, i as int)),
        decreases entries@.len() - i,
    {
        let x = &entries[i];
        assert(all[i as int] == x.path@);
        assert(all.subrange(0, i + 1).drop_last() =~= all.subrange(0, i as int));
        insert_text(&mut out, &x.path);
        i = i + 1;
    }
    assert(all.subrange(0, all.len() as int) =~= all);
    out
}

proof fn lemma_path_slot_is(s: Seq<Seq<char>>, x: Seq<char>, k: int)
    requires
        0 <= k <= s.len(),
        forall|j: int| 0 <= j < k ==> !path_lt(x, #[trigger] s[j]),
        k == s.len() || path_lt(x, s[k]),
    ensures
        path_slot(s, x) == k,
    decreases k,
{
    if k > 0 {
        assert forall|j: int| 0 <= j < k - 1 implies !path_lt(x, #[trigger] s.drop_first()[j]) by {
            assert(s.drop_first()[j] == s[j + 1]);
        }
        lemma_path_slot_is(s.drop_first(), x, k - 1);
    }
}

/// The paths of `v` in `Path`'s order.
fn order_by_path(v: &Vec<String>) -> (r: Vec<String>)
    ensures
        text_views(r@) == by_path(text_views(v@)),
{
    let ghost all = text_views(v@);
    let mut out: Vec<String> = Vec::new();
    let mut i: usize = 0;
    assert(all.subrange(0, 0) =~= Seq::<Seq<char>>::empty());
    assert(text_views(out@) =~= Seq::<Seq<char>>::empty());
    while i < v.len()
        invariant
            i <= v@.len(),
            all == text_views(v@),
            text_views(out@) == by_path(all.subrange(0, i as int)),
        decreases v@.len() - i,
    {
        let x = v[i].clone();
        assert(all[i as int] == x@);
        assert(all.subrange(0, i + 1).drop_last() =~= all.subrange(0, i as int));
        let ghost outs = text_views(out@);
        let mut k: usize = 0;
        while k < out.len() && !path_less(x.as_str(), out[k].as_str())
            invariant
                outs == text_views(out@),
                k <= out@.len(),
                forall|j: int| 0 <= j < k ==> !path_lt(x@, #[trigger] outs[j]),
            decreases out@.len() - k,
        {
            k = k + 1;
        }
        proof {
            lemma_path_slot_is(outs, x@, k as int);
        }
        let ghost xv = x@;
        out.insert(k, x);
        assert(text_views(out@) =~= outs.insert(k as int, xv));
        i = i + 1;
    }
    assert(all.subrange(0, all.len() as int) =~= all);
    out
}

/// Whether `parents` holds the shown parent of each path of `ps`.
pub open spec fn parents_of(ps: Seq<String>, parents: Seq<Option<String>>) -> bool {
    &&& parents.len() == ps.len()
    &&& forall|i: int| 0 <= i < ps.len() ==> opt_text(#[trigger] parents[i]) == shown_parent(ps[i]@)
}

proof fn lemma_under_step(ps: Seq<Seq<char>>, i: int, p: Option<Seq<char>>)
    requires
        0 <= i < ps.len(),
    ensures
        paths_under(ps.subrange(0, i + 1), p) == (if shown_parent(ps[i]) == p {
            paths_under(ps.subrange(0, i), p).push(ps[i])
        } else {
            paths_under(ps.subrange(0, i), p)
        }),
{
    assert(ps.subrange(0, i + 1).drop_last() =~= ps.subrange(0, i));
}

proof fn lemma_with_children_push(n: NodeView, e: Seq<EntryView>, ps: Seq<Seq<char>>, qs: Seq<Seq<char>>, q: Seq<char>, fuel: nat)
    ensures
        with_children(n, e, ps, qs.push(q), fuel) == with_child(with_children(n, e, ps, qs, fuel), built_node(e, ps, q, fuel)),
{
    assert(qs.push(q).drop_last() =~= qs);
}

proof fn lemma_built_nodes_push(e: Seq<EntryView>, ps: Seq<Seq<char>>, qs: Seq<Seq<char>>, q: Seq<char>, fuel: nat)
    ensures
        built_nodes(e, ps, qs.push(q), fuel) == built_nodes(e, ps, qs, fuel).push(built_node(e, ps, q, fuel)),
{
    assert(qs.push(q).drop_last() =~= qs);
}

/// The node of the path `p` with its subtree, at most `fuel` levels deep.
fn build_node(
    entries: &Vec<GitTreeEntry>,
    ps: &Vec<String>,
    parents: &Vec<Option<String>>,
    p: &String,
    fuel: usize,
) -> (r: TreeNode)
    requires
        last_entry(entry_views(entries@), p@) is Some,
        all_entered(entry_views(entries@), text_views(ps@)),
        parents_of(ps@, parents@),
    ensures
        r@ == built_node(entry_views(entries@), text_views(ps@), p@, fuel as nat),
    decreases fuel,
{
    let ghost ev = entry_views(entries@);
    let ghost psv = text_views(ps@);
    let ent = find_entry(entries, p.as_str()).unwrap();
    let mut node = TreeNode::new(ent.name.clone(), p.clone(), ent.is_dir);
    proof {
        crate::tree::lemma_node_views_len(node.children@);
        assert(node@ =~= bare_node(ev, p@));
    }
    if fuel == 0 {
        return node;
    }
    let ghost bare = node@;
    let mut i: usize = 0;
    assert(psv.subrange(0, 0) =~= Seq::<Seq<char>>::empty());
    while i < ps.len()
        invariant
            i <= ps@.len(),
            fuel > 0,
            ev == entry_views(entries@),
            psv == text_views(ps@),
            all_entered(ev, psv),
            parents_of(ps@, parents@),
            node@ == with_children(bare, ev, psv, paths_under(psv.subrange(0, i as int), Some(p@)), (fuel - 1) as nat),
        decreases ps@.len() - i,
    {
        proof {
            lemma_under_step(psv, i as int, Some(p@));
            assert(psv[i as int] == ps@[i as int]@);
        }
        let is_child = match &parents[i] {
            Some(q) => str_eq(q.as_str(), p.as_str()),
            None => false,
        };
        if is_child {
            proof {
                assert(last_entry(ev, psv[i as int]) is Some);
                lemma_with_children_push(bare, ev, psv, paths_under(psv.subrange(0, i as int), Some(p@)), psv[i as int], (fuel - 1) as nat);
            }
            let child = build_node(entries, ps, parents, &ps[i], fuel - 1);
            node.add_child(child);
        }
        i = i + 1;
    }
    assert(psv.subrange(0, psv.len() as int) =~= psv);
    node
}

impl FileTree {
    /// Adds the tree built from the entries of a Git tree walk: each path
    /// once, the last entry for a path winning; each path under its parent
    /// directory, and left out when that is not an entry or not a directory;
    /// the top level in sibling order.
    pub fn build_tree_from_git_entries(&mut self, git_entries: Vec<GitTreeEntry>)
        ensures
            ({
                let ev = entry_views(git_entries@);
                let ps = tree_path_order(ev);
                final(self)@.root == sorted_nodes(old(self)@.root + built_nodes(ev, ps, paths_under(ps, None), ps.len()))
            }),
            final(self)@.statuses == old(self)@.statuses,
            final(self)@.repo_root == old(self)@.repo_root,
    {
        let ghost ev = entry_views(git_entries@);
        let uniq = unique_paths(&git_entries);
        let ps = order_by_path(&uniq);
        let ghost psv = text_views(ps@);
        proof {
            lemma_tree_paths_entered(ev);
        }
        let mut parents: Vec<Option<String>> = Vec::new();
        let mut i: usize = 0;
        while i < ps.len()
            invariant
                i <= ps@.len(),
                parents@.len() == i,
                forall|j: int| 0 <= j < i ==> opt_text(#[trigger] parents@[j]) == shown_parent(ps@[j]@),
            decreases ps@.len() - i,
        {
            let q = parent_shown(ps[i].as_str());
            parents.push(q);
            i = i + 1;
        }
        let fuel = ps.len();
        let mut tops: Vec<TreeNode> = Vec::new();
        let mut k: usize = 0;
        assert(psv.subrange(0, 0) =~= Seq::<Seq<char>>::empty());
        assert(node_views(tops@) =~= Seq::<NodeView>::empty()) by {
            crate::tree::lemma_node_views_len(tops@);
        }
        while k < ps.len()
            invariant
                k <= ps@.len(),
                fuel == ps@.len(),
                ev == entry_views(git_entries@),
                psv == text_views(ps@),
                psv == tree_path_order(ev),
                all_entered(ev, psv),
                parents_of(ps@, parents@),
                node_views(tops@) == built_nodes(ev, psv, paths_under(psv.subrange(0, k as int), None), fuel as nat),
            decreases ps@.len() - k,
        {
            proof {
                lemma_under_step(psv, k as int, None);
                assert(psv[k as int] == ps@[k as int]@);
            }
            if parents[k].is_none() {
                proof {
                    assert(last_entry(ev, psv[k as int]) is Some);
                    lemma_built_nodes_push(ev, psv, paths_under(psv.subrange(0, k as int), None), psv[k as int], fuel as nat);
                }
                let node = build_node(&git_entries, &ps, &parents, &ps[k], fuel);
                proof {
                    lemma_node_views_push(tops@, node);
                }
                tops.push(node);
            }
            k = k + 1;
        }
        assert(psv.subrange(0, psv.len() as int) =~= psv);
        let mut all: Vec<TreeNode> = Vec::new();
        std::mem::swap(&mut all, &mut self.root);
        let ghost before = node_views(all@);
        let mut n: usize = 0;
        assert(tops@.subrange(0, 0) =~= Seq::<TreeNode>::empty());
        assert(before + node_views(Seq::<TreeNode>::empty()) =~= before) by {
            crate::tree::lemma_node_views_len(Seq::<TreeNode>::empty());
        }
        let mut rest = tops;
        let ghost top_all = rest@;
        assert(top_all.len() == rest.len());
        let mut rev: Vec<TreeNode> = Vec::new();
        while rest.len() > 0
            invariant
                rest@ == top_all.subrange(0, rest@.len() as int),
                rev@.len() + rest@.len() == top_all.len(),
                forall|j: int| 0 <= j < rev@.len() ==> #[trigger] rev@[j] == top_all[top_all.len() - 1 - j],
            decreases rest@.len(),
        {
            let x = rest.pop().unwrap();
            rev.push(x);
        }
        while rev.len() > 0
            invariant
                rev@.len() + n == top_all.len(),
                top_all.len() <= usize::MAX,
                forall|j: int| 0 <= j < rev@.len() ==> #[trigger] rev@[j] == top_all[top_all.len() - 1 - j],
                node_views(all@) == before + node_views(top_all.subrange(0, n as int)),
            decreases rev@.len(),
        {
            let x = rev.pop().unwrap();
            proof {
                assert(x == top_all[n as int]);
                crate::tree::lemma_node_views_prefix(top_all, n as int);
                lemma_node_views_push(all@, x);
            }
            all.push(x);
            n = n + 1;
        }
        assert(top_all.subrange(0, top_all.len() as int) =~= top_all);
        self.root = sort_nodes(all);
    }
}

} // verus!
