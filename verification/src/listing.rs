//! The rows that the navigator draws, in browsing and in search mode, and
//! small set operations on lists of paths.

use vstd::prelude::*;
use crate::app::text_views;
use crate::navigator::VisibleItem;
use crate::text::{chars_eq, chars_of};
use crate::tree::{
    path_equal, same_path, all_in_node, all_nodes, lemma_node_views_all, lemma_node_views_prefix, lemma_visible_bound_child,
    node_view, node_views, opt_text, visible_bound, NodeView, TreeNode,
};

verus! {

/// The value of a row.
pub struct ItemView {
    pub path: Seq<char>,
    pub name: Seq<char>,
    pub depth: int,
    pub is_selected: bool,
    pub is_expanded: bool,
    pub is_dir: bool,
    pub git_status: Option<char>,
}

impl View for VisibleItem {
    type V = ItemView;

    open spec fn view(&self) -> ItemView {
        ItemView {
            path: self.path@,
            name: self.name@,
            depth: self.depth as int,
            is_selected: self.is_selected,
            is_expanded: self.is_expanded,
            is_dir: self.is_dir,
            git_status: self.git_status,
        }
    }
}

/// The values of a list of rows.
pub open spec fn item_views(v: Seq<VisibleItem>) -> Seq<ItemView> {
    v.map_values(|x: VisibleItem| x@)
}

/// The set of texts in a list.
pub open spec fn text_set(v: Seq<String>) -> Set<Seq<char>> {
    text_views(v).to_set()
}

/// The row of a node drawn at depth `d`.
pub open spec fn item_of(n: NodeView, d: int, selected: bool, expanded: bool) -> ItemView {
    ItemView {
        path: n.path,
        name: n.name,
        depth: d,
        is_selected: selected,
        is_expanded: expanded,
        is_dir: n.is_dir,
        git_status: n.git_status,
    }
}

/// The rows shown while browsing: each node, and below a directory whose
/// path is, as `Path` compares paths, in `ex`, its children one level deeper.
pub open spec fn browse_items(s: Seq<NodeView>, d: int, ex: Set<Seq<char>>, sel: Option<Seq<char>>) -> Seq<ItemView>
    decreases s,
{
    if s.len() == 0 {
        Seq::empty()
    } else {
        browse_items(s.drop_last(), d, ex, sel) + browse_node(s.last(), d, ex, sel)
    }
}

/// The rows of one node and what it shows below itself while browsing.
pub open spec fn browse_node(n: NodeView, d: int, ex: Set<Seq<char>>, sel: Option<Seq<char>>) -> Seq<ItemView>
    decreases n,
{
    let it = item_of(n, d, selects(sel, n.path), holds_path(ex, n.path));
    if n.is_dir && holds_path(ex, n.path) {
        seq![it] + browse_items(n.children, d + 1, ex, sel)
    } else {
        seq![it]
    }
}

/// The rows of search mode below some level: only nodes whose path is among
/// the results `res` are drawn, a directory in `ex` shows its children (paths
/// compared as `Path` compares them), and
/// the row whose position (counted from `start`) is `sel` is selected.
pub open spec fn search_items(
    s: Seq<NodeView>,
    d: int,
    ex: Set<Seq<char>>,
    res: Set<Seq<char>>,
    sel: Option<usize>,
    start: int,
) -> Seq<ItemView>
    decreases s,
{
    if s.len() == 0 {
        Seq::empty()
    } else {
        let a = search_items(s.drop_last(), d, ex, res, sel, start);
        a + search_node(s.last(), d, ex, res, sel, start + a.len())
    }
}

/// The search-mode rows of one node, its row at position `start`.
pub open spec fn search_node(
    n: NodeView,
    d: int,
    ex: Set<Seq<char>>,
    res: Set<Seq<char>>,
    sel: Option<usize>,
    start: int,
) -> Seq<ItemView>
    decreases n,
{
    if !holds_path(res, n.path) {
        Seq::empty()
    } else {
        let it = item_of(n, d, sel matches Some(i) && i == start, holds_path(ex, n.path));
        if n.is_dir && holds_path(ex, n.path) {
            seq![it] + search_items(n.children, d + 1, ex, res, sel, start + 1)
        } else {
            seq![it]
        }
    }
}

/// One pass over the top level in search mode: the nodes that are
/// directories when `dirs` holds, the others when it does not.
pub open spec fn search_pass(
    s: Seq<NodeView>,
    dirs: bool,
    ex: Set<Seq<char>>,
    res: Set<Seq<char>>,
    sel: Option<usize>,
    start: int,
) -> Seq<ItemView>
    decreases s.len(),
{
    if s.len() == 0 {
        Seq::empty()
    } else {
        let a = search_pass(s.drop_last(), dirs, ex, res, sel, start);
        if s.last().is_dir == dirs {
            a + search_node(s.last(), 0, ex, res, sel, start + a.len())
        } else {
            a
        }
    }
}

/// The rows of search mode: the top-level directories first, then the
/// top-level files, each with what it shows below itself.
pub open spec fn search_listing(s: Seq<NodeView>, ex: Set<Seq<char>>, res: Set<Seq<char>>, sel: Option<usize>) -> Seq<ItemView> {
    let a = search_pass(s, true, ex, res, sel, 0);
    a + search_pass(s, false, ex, res, sel, a.len() as int)
}

/// The paths of the nodes whose directory is expanded.
pub open spec fn expanded_paths(s: Seq<NodeView>) -> Set<Seq<char>> {
    Set::new(|p: Seq<char>| exists|i: int| 0 <= i < all_nodes(s).len() && #[trigger] all_nodes(s)[i].is_expanded && all_nodes(s)[i].path == p)
}

/// Whether `ex` holds a path that `Path` counts as the same as `p`.
pub open spec fn holds_path(ex: Set<Seq<char>>, p: Seq<char>) -> bool {
    exists|e: Seq<char>| #[trigger] ex.contains(e) && same_path(e, p)
}

/// `ex` without every path that `Path` counts as the same as `p`.
pub open spec fn without_path(ex: Set<Seq<char>>, p: Seq<char>) -> Set<Seq<char>> {
    ex.filter(|e: Seq<char>| !same_path(e, p))
}

/// Whether the selection is a path that `Path` counts as the same as `p`.
pub open spec fn selects(sel: Option<Seq<char>>, p: Seq<char>) -> bool {
    sel matches Some(s) && same_path(s, p)
}

/// Whether a list of paths holds one that is the same path as `p`.
pub fn contains_path(v: &Vec<String>, p: &str) -> (r: bool)
    ensures
        r == holds_path(text_set(v@), p@),
{
    let mut i: usize = 0;
    while i < v.len()
        invariant
            i <= v@.len(),
            forall|j: int| 0 <= j < i ==> !same_path(#[trigger] v@[j]@, p@),
        decreases v@.len() - i,
    {
        if path_equal(v[i].as_str(), p) {
            assert(text_views(v@)[i as int] == v@[i as int]@);
            assert(text_set(v@).contains(v@[i as int]@));
            return true;
        }
        i = i + 1;
    }
    assert(!holds_path(text_set(v@), p@)) by {
        if holds_path(text_set(v@), p@) {
            let e = choose|e: Seq<char>| #[trigger] text_set(v@).contains(e) && same_path(e, p@);
            assert(text_views(v@).contains(e));
            let k = choose|k: int| 0 <= k < text_views(v@).len() && text_views(v@)[k] == e;
            assert(v@[k]@ == e);
        }
    }
    false
}

/// Adds `p` to the list unless it holds the same path already.
pub fn insert_path(v: &mut Vec<String>, p: &String)
    ensures
        text_set(final(v)@) == (if holds_path(text_set(old(v)@), p@) {
            text_set(old(v)@)
        } else {
            text_set(old(v)@).insert(p@)
        }),
{
    if !contains_path(v, p.as_str()) {
        proof {
            lemma_text_set_push(v@, *p);
        }
        v.push(p.clone());
    }
}

/// The list without any path that is the same path as `p`.
pub fn remove_path(v: &Vec<String>, p: &str) -> (r: Vec<String>)
    ensures
        text_set(r@) == without_path(text_set(v@), p@),
{
    let mut out: Vec<String> = Vec::new();
    let mut i: usize = 0;
    while i < v.len()
        invariant
            i <= v@.len(),
            forall|x: Seq<char>| #[trigger] text_set(out@).contains(x) <==>
                (!same_path(x, p@) && text_set(v@.subrange(0, i as int)).contains(x)),
        decreases v@.len() - i,
    {
        proof {
            assert(v@.subrange(0, i + 1) =~= v@.subrange(0, i as int).push(v@[i as int]));
            lemma_text_set_push(v@.subrange(0, i as int), v@[i as int]);
        }
        let ghost prev = out@;
        let ghost w = v@[i as int]@;
        let ghost t0 = text_set(v@.subrange(0, i as int));
        let ghost t1 = text_set(v@.subrange(0, i + 1));
        assert(t1 == t0.insert(w));
        let eq = path_equal(v[i].as_str(), p);
        assert(eq == same_path(w, p@));
        if !eq {
            proof {
                lemma_text_set_push(out@, v@[i as int]);
            }
            out.push(v[i].clone());
            assert forall|x: Seq<char>| #[trigger] text_set(out@).contains(x) <==>
                (!same_path(x, p@) && text_set(v@.subrange(0, i + 1)).contains(x)) by {
                if x == w {
                } else {
                    assert(text_set(out@).contains(x) == text_set(prev).contains(x));
                    assert(t1.contains(x) == t0.contains(x));
                }
            }
        } else {
            assert forall|x: Seq<char>| #[trigger] text_set(out@).contains(x) <==>
                (!same_path(x, p@) && text_set(v@.subrange(0, i + 1)).contains(x)) by {
                assert(out@ == prev);
                if x == w {
                    assert(!text_set(prev).contains(x));
                } else {
                    assert(t1.contains(x) == t0.contains(x));
                }
            }
        }
        i = i + 1;
    }
    assert(v@.subrange(0, v@.len() as int) =~= v@);
    assert forall|x: Seq<char>| #[trigger] text_set(out@).contains(x) == without_path(text_set(v@), p@).contains(x) by {
        assert(text_set(out@).contains(x) <==> (!same_path(x, p@) && text_set(v@).contains(x)));
    }
    assert(text_set(out@) =~= without_path(text_set(v@), p@));
    out
}

/// Whether a list of texts holds the text `p`.
pub fn contains_text(v: &Vec<String>, p: &[char]) -> (r: bool)
    ensures
        r == text_set(v@).contains(p@),
        r == text_views(v@).contains(p@),
{
    let mut i: usize = 0;
    while i < v.len()
        invariant
            i <= v@.len(),
            forall|j: int| 0 <= j < i ==> v@[j]@ != p@,
        decreases v@.len() - i,
    {
        let c = chars_of(v[i].as_str());
        if chars_eq(c.as_slice(), p) {
            assert(text_views(v@)[i as int] == p@);
            return true;
        }
        i = i + 1;
    }
    assert(!text_views(v@).contains(p@)) by {
        if text_views(v@).contains(p@) {
            let k = choose|k: int| 0 <= k < text_views(v@).len() && text_views(v@)[k] == p@;
            assert(v@[k]@ == p@);
        }
    }
    false
}

proof fn lemma_text_set_push(v: Seq<String>, s: String)
    ensures
        text_views(v.push(s)) == text_views(v).push(s@),
        text_set(v.push(s)) == text_set(v).insert(s@),
{
    assert(text_views(v.push(s)) =~= text_views(v).push(s@));
    let a = text_views(v);
    assert forall|x: Seq<char>| #[trigger] text_set(v.push(s)).contains(x) == text_set(v).insert(s@).contains(x) by {
        assert(text_set(v.push(s)).contains(x) == a.push(s@).contains(x));
        assert(text_set(v).contains(x) == a.contains(x));
        if a.push(s@).contains(x) && x != s@ {
            let k = choose|k: int| 0 <= k < a.push(s@).len() && a.push(s@)[k] == x;
            assert(a[k] == x);
        }
        if a.contains(x) {
            let k = choose|k: int| 0 <= k < a.len() && a[k] == x;
            assert(a.push(s@)[k] == x);
        }
        if x == s@ {
            assert(a.push(s@)[a.len() as int] == x);
        }
    }
    assert(text_set(v.push(s)) =~= text_set(v).insert(s@));
}

/// Adds `p` to the list unless it holds it already.
pub fn insert_text(v: &mut Vec<String>, p: &String)
    ensures
        text_set(final(v)@) == text_set(old(v)@).insert(p@),
        text_views(old(v)@).contains(p@) ==> final(v)@ == old(v)@,
        !text_views(old(v)@).contains(p@) ==> text_views(final(v)@) == text_views(old(v)@).push(p@),
{
    let pc = chars_of(p.as_str());
    if !contains_text(v, pc.as_slice()) {
        proof {
            lemma_text_set_push(v@, *p);
        }
        v.push(p.clone());
    } else {
        assert(text_set(v@) =~= text_set(v@).insert(p@));
    }
}

/// Whether two lists hold the same texts, each counted once.
pub fn same_texts(a: &Vec<String>, b: &Vec<String>) -> (r: bool)
    ensures
        r == (text_set(a@) == text_set(b@)),
{
    let mut i: usize = 0;
    while i < a.len()
        invariant
            i <= a@.len(),
            forall|j: int| 0 <= j < i ==> text_set(b@).contains(#[trigger] a@[j]@),
        decreases a@.len() - i,
    {
        let c = chars_of(a[i].as_str());
        if !contains_text(b, c.as_slice()) {
            assert(text_set(a@).contains(a@[i as int]@)) by {
                assert(text_views(a@)[i as int] == a@[i as int]@);
            }
            return false;
        }
        i = i + 1;
    }
    let mut k: usize = 0;
    while k < b.len()
        invariant
            k <= b@.len(),
            forall|j: int| 0 <= j < a@.len() ==> text_set(b@).contains(#[trigger] a@[j]@),
            forall|j: int| 0 <= j < k ==> text_set(a@).contains(#[trigger] b@[j]@),
        decreases b@.len() - k,
    {
        let c = chars_of(b[k].as_str());
        if !contains_text(a, c.as_slice()) {
            assert(text_set(b@).contains(b@[k as int]@)) by {
                assert(text_views(b@)[k as int] == b@[k as int]@);
            }
            return false;
        }
        k = k + 1;
    }
    assert(text_set(a@) =~= text_set(b@)) by {
        assert forall|x: Seq<char>| text_set(a@).contains(x) implies text_set(b@).contains(x) by {
            let j = choose|j: int| 0 <= j < text_views(a@).len() && text_views(a@)[j] == x;
            assert(a@[j]@ == x);
        }
        assert forall|x: Seq<char>| text_set(b@).contains(x) implies text_set(a@).contains(x) by {
            let j = choose|j: int| 0 <= j < text_views(b@).len() && text_views(b@)[j] == x;
            assert(b@[j]@ == x);
        }
    }
    true
}

/// Whether two lists hold the same texts in the same order.
pub fn same_list(a: &Vec<String>, b: &Vec<String>) -> (r: bool)
    ensures
        r == (text_views(a@) == text_views(b@)),
{
    if a.len() != b.len() {
        assert(text_views(a@).len() != text_views(b@).len());
        return false;
    }
    let mut i: usize = 0;
    while i < a.len()
        invariant
            a@.len() == b@.len(),
            i <= a@.len(),
            forall|j: int| 0 <= j < i ==> a@[j]@ == b@[j]@,
        decreases a@.len() - i,
    {
        let x = chars_of(a[i].as_str());
        let y = chars_of(b[i].as_str());
        if !chars_eq(x.as_slice(), y.as_slice()) {
            assert(text_views(a@)[i as int] != text_views(b@)[i as int]);
            return false;
        }
        i = i + 1;
    }
    assert(text_views(a@) =~= text_views(b@));
    true
}

/// Appends every node of `nodes` and below, in pre-order, to `out`.
pub fn collect_all<'a>(nodes: &'a Vec<TreeNode>, out: &mut Vec<&'a TreeNode>)
    ensures
        final(out)@.map_values(|x: &TreeNode| x@) == old(out)@.map_values(|x: &TreeNode| x@) + all_nodes(node_views(nodes@)),
    decreases nodes@,
{
    let mut i: usize = 0;
    proof {
        assert(nodes@.subrange(0, 0) =~= Seq::<TreeNode>::empty());
        assert(all_nodes(Seq::<NodeView>::empty()) =~= Seq::<NodeView>::empty());
        assert(out@.map_values(|x: &TreeNode| x@) + Seq::<NodeView>::empty() =~= out@.map_values(|x: &TreeNode| x@));
    }
    while i < nodes.len()
        invariant
            i <= nodes@.len(),
            out@.map_values(|x: &TreeNode| x@) == old(out)@.map_values(|x: &TreeNode| x@) + all_nodes(node_views(nodes@.subrange(0, i as int))),
        decreases nodes@.len() - i,
    {
        let x = &nodes[i];
        let ghost before = out@.map_values(|y: &TreeNode| y@);
        proof {
            lemma_node_views_prefix(nodes@, i as int);
            let pre = node_views(nodes@.subrange(0, i as int));
            assert(pre.push(node_view(*x)).drop_last() =~= pre);
        }
        out.push(x);
        assert(out@.map_values(|y: &TreeNode| y@) =~= before.push(x@));
        proof {
            assert(decreases_to!(nodes@ => nodes@[i as int]));
            assert(decreases_to!(nodes@[i as int] => nodes@[i as int].children));
            assert(decreases_to!(nodes@[i as int].children => nodes@[i as int].children@));
        }
        collect_all(&x.children, out);
        proof {
            let pre = node_views(nodes@.subrange(0, i as int));
            assert(all_in_node(x@) =~= seq![x@] + all_nodes(x@.children));
            assert(out@.map_values(|y: &TreeNode| y@) =~= old(out)@.map_values(|y: &TreeNode| y@) + all_nodes(pre) + all_in_node(x@));
        }
        i = i + 1;
    }
    assert(nodes@.subrange(0, nodes@.len() as int) =~= nodes@);
}

/// The paths of the expanded nodes of `nodes` and below.
pub fn expanded_list(nodes: &Vec<TreeNode>) -> (r: Vec<String>)
    ensures
        text_set(r@) == expanded_paths(node_views(nodes@)),
{
    let mut all: Vec<&TreeNode> = Vec::new();
    collect_all(nodes, &mut all);
    let ghost flat = all_nodes(node_views(nodes@));
    assert(all@.map_values(|x: &TreeNode| x@) =~= flat);
    let mut out: Vec<String> = Vec::new();
    let mut i: usize = 0;
    while i < all.len()
        invariant
            i <= all@.len(),
            all@.len() == flat.len(),
            forall|k: int| 0 <= k < all@.len() ==> #[trigger] all@[k]@ == flat[k],
            forall|p: Seq<char>| text_set(out@).contains(p) <==>
                (exists|k: int| 0 <= k < i && #[trigger] flat[k].is_expanded && flat[k].path == p),
        decreases all@.len() - i,
    {
        let x = all[i];
        assert(x@ == flat[i as int]);
        let ghost prev = out@;
        if x.is_expanded {
            proof {
                lemma_text_set_push(out@, x.path);
            }
            out.push(x.path.clone());
        }
        assert forall|p: Seq<char>| text_set(out@).contains(p) <==>
            (exists|k: int| 0 <= k < i + 1 && #[trigger] flat[k].is_expanded && flat[k].path == p) by {
            if x.is_expanded {
                assert(text_set(out@) == text_set(prev).insert(x.path@));
                if p == x.path@ {
                    assert(flat[i as int].is_expanded && flat[i as int].path == p);
                }
            } else {
                assert(out@ == prev);
            }
            if text_set(prev).contains(p) {
                let k = choose|k: int| 0 <= k < i && #[trigger] flat[k].is_expanded && flat[k].path == p;
                assert(0 <= k < i + 1 && flat[k].is_expanded && flat[k].path == p);
            }
            if exists|k: int| 0 <= k < i + 1 && #[trigger] flat[k].is_expanded && flat[k].path == p {
                let k = choose|k: int| 0 <= k < i + 1 && #[trigger] flat[k].is_expanded && flat[k].path == p;
                if k < i {
                    assert(text_set(prev).contains(p));
                }
            }
        }
        i = i + 1;
    }
    assert(text_set(out@) =~= expanded_paths(node_views(nodes@)));
    out
}

/// Whether an optional path is the same path as `p`.
fn is_path(o: &Option<String>, p: &str) -> (r: bool)
    ensures
        r == selects(opt_text(*o), p@),
{
    match o {
        Some(s) => path_equal(s.as_str(), p),
        None => false,
    }
}

/// The row of `x` at depth `d`.
fn row_of(x: &TreeNode, d: usize, selected: bool, expanded: bool) -> (r: VisibleItem)
    ensures
        r@ == item_of(x@, d as int, selected, expanded),
{
    VisibleItem {
        path: x.path.clone(),
        name: x.name.clone(),
        depth: d,
        is_selected: selected,
        is_expanded: expanded,
        is_dir: x.is_dir,
        git_status: x.git_status,
    }
}

proof fn lemma_item_views_push(v: Seq<VisibleItem>, x: VisibleItem)
    ensures
        item_views(v.push(x)) == item_views(v).push(x@),
{
    assert(item_views(v.push(x)) =~= item_views(v).push(x@));
}

/// Appends the rows shown while browsing for `nodes` at depth `d` to `out`.
pub fn collect_browse(nodes: &Vec<TreeNode>, out: &mut Vec<VisibleItem>, d: usize, ex: &Vec<String>, sel: &Option<String>)
    requires
        d + visible_bound(node_views(nodes@)) <= usize::MAX,
    ensures
        item_views(final(out)@) == item_views(old(out)@) + browse_items(node_views(nodes@), d as int, text_set(ex@), opt_text(*sel)),
    decreases nodes@,
{
    let ghost exs = text_set(ex@);
    let ghost ss = opt_text(*sel);
    let mut i: usize = 0;
    proof {
        assert(nodes@.subrange(0, 0) =~= Seq::<TreeNode>::empty());
        assert(browse_items(Seq::<NodeView>::empty(), d as int, exs, ss) =~= Seq::<ItemView>::empty());
        assert(item_views(out@) + Seq::<ItemView>::empty() =~= item_views(out@));
        lemma_node_views_all(nodes@);
    }
    while i < nodes.len()
        invariant
            i <= nodes@.len(),
            exs == text_set(ex@),
            ss == opt_text(*sel),
            d + visible_bound(node_views(nodes@)) <= usize::MAX,
            node_views(nodes@).len() == nodes@.len(),
            forall|k: int| 0 <= k < nodes@.len() ==> #[trigger] node_views(nodes@)[k] == node_view(nodes@[k]),
            item_views(out@) == item_views(old(out)@) + browse_items(node_views(nodes@.subrange(0, i as int)), d as int, exs, ss),
        decreases nodes@.len() - i,
    {
        let x = &nodes[i];
        let ghost before = item_views(out@);
        proof {
            lemma_node_views_prefix(nodes@, i as int);
            let pre = node_views(nodes@.subrange(0, i as int));
            assert(pre.push(node_view(*x)).drop_last() =~= pre);
        }
        let selected = is_path(sel, x.path.as_str());
        let expanded = contains_path(ex, x.path.as_str());
        let row = row_of(x, d, selected, expanded);
        proof {
            lemma_item_views_push(out@, row);
        }
        out.push(row);
        if x.is_dir && expanded {
            proof {
                assert(decreases_to!(nodes@ => nodes@[i as int]));
                assert(decreases_to!(nodes@[i as int] => nodes@[i as int].children));
                assert(decreases_to!(nodes@[i as int].children => nodes@[i as int].children@));
                lemma_visible_bound_child(node_views(nodes@), i as int);
            }
            collect_browse(&x.children, out, d + 1, ex, sel);
        }
        proof {
            let pre = node_views(nodes@.subrange(0, i as int));
            assert(item_views(out@) =~= item_views(old(out)@) + browse_items(pre, d as int, exs, ss) + browse_node(x@, d as int, exs, ss));
        }
        i = i + 1;
    }
    assert(nodes@.subrange(0, nodes@.len() as int) =~= nodes@);
}

/// Whether an optional index is `Some(i)`.
fn is_index(o: Option<usize>, i: usize) -> (r: bool)
    ensures
        r == (o matches Some(j) && j == i),
{
    match o {
        Some(j) => j == i,
        None => false,
    }
}

/// Appends the search-mode rows for `nodes` at depth `d` to `out`, the first
/// of them counted at position `old(out).len()`.
pub fn collect_search(
    nodes: &Vec<TreeNode>,
    out: &mut Vec<VisibleItem>,
    d: usize,
    ex: &Vec<String>,
    res: &Vec<String>,
    sel: Option<usize>,
)
    requires
        d + visible_bound(node_views(nodes@)) <= usize::MAX,
    ensures
        item_views(final(out)@) == item_views(old(out)@) + search_items(
            node_views(nodes@), d as int, text_set(ex@), text_set(res@), sel, old(out)@.len() as int),
    decreases nodes@,
{
    let ghost exs = text_set(ex@);
    let ghost rs = text_set(res@);
    let ghost base = old(out)@.len() as int;
    let mut i: usize = 0;
    proof {
        assert(nodes@.subrange(0, 0) =~= Seq::<TreeNode>::empty());
        assert(search_items(Seq::<NodeView>::empty(), d as int, exs, rs, sel, base) =~= Seq::<ItemView>::empty());
        assert(item_views(out@) + Seq::<ItemView>::empty() =~= item_views(out@));
        lemma_node_views_all(nodes@);
    }
    while i < nodes.len()
        invariant
            i <= nodes@.len(),
            exs == text_set(ex@),
            rs == text_set(res@),
            base == old(out)@.len(),
            d + visible_bound(node_views(nodes@)) <= usize::MAX,
            node_views(nodes@).len() == nodes@.len(),
            forall|k: int| 0 <= k < nodes@.len() ==> #[trigger] node_views(nodes@)[k] == node_view(nodes@[k]),
            item_views(out@) == item_views(old(out)@) + search_items(node_views(nodes@.subrange(0, i as int)), d as int, exs, rs, sel, base),
        decreases nodes@.len() - i,
    {
        let x = &nodes[i];
        let ghost a = search_items(node_views(nodes@.subrange(0, i as int)), d as int, exs, rs, sel, base);
        proof {
            lemma_node_views_prefix(nodes@, i as int);
            let pre = node_views(nodes@.subrange(0, i as int));
            assert(pre.push(node_view(*x)).drop_last() =~= pre);
            assert(item_views(out@).len() == out@.len());
        }
        let start = out.len();
        if contains_path(res, x.path.as_str()) {
            let expanded = contains_path(ex, x.path.as_str());
            let row = row_of(x, d, is_index(sel, start), expanded);
            proof {
                lemma_item_views_push(out@, row);
            }
            out.push(row);
            if x.is_dir && expanded {
                proof {
                    assert(decreases_to!(nodes@ => nodes@[i as int]));
                    assert(decreases_to!(nodes@[i as int] => nodes@[i as int].children));
                    assert(decreases_to!(nodes@[i as int].children => nodes@[i as int].children@));
                    lemma_visible_bound_child(node_views(nodes@), i as int);
                }
                collect_search(&x.children, out, d + 1, ex, res, sel);
            }
        }
        proof {
            let pre = node_views(nodes@.subrange(0, i as int));
            assert(start == base + a.len());
            assert(item_views(out@) =~= item_views(old(out)@) + a + search_node(x@, d as int, exs, rs, sel, base + a.len()));
        }
        i = i + 1;
    }
    assert(nodes@.subrange(0, nodes@.len() as int) =~= nodes@);
}

/// Appends one top-level pass of search-mode rows to `out`: the directories
/// when `dirs` holds, else the files.
fn collect_search_pass(
    nodes: &Vec<TreeNode>,
    dirs: bool,
    out: &mut Vec<VisibleItem>,
    ex: &Vec<String>,
    res: &Vec<String>,
    sel: Option<usize>,
)
    requires
        visible_bound(node_views(nodes@)) <= usize::MAX,
    ensures
        item_views(final(out)@) == item_views(old(out)@) + search_pass(
            node_views(nodes@), dirs, text_set(ex@), text_set(res@), sel, old(out)@.len() as int),
{
    let ghost exs = text_set(ex@);
    let ghost rs = text_set(res@);
    let ghost base = old(out)@.len() as int;
    let mut i: usize = 0;
    proof {
        assert(nodes@.subrange(0, 0) =~= Seq::<TreeNode>::empty());
        assert(search_pass(Seq::<NodeView>::empty(), dirs, exs, rs, sel, base) =~= Seq::<ItemView>::empty());
        assert(item_views(out@) + Seq::<ItemView>::empty() =~= item_views(out@));
        lemma_node_views_all(nodes@);
    }
    while i < nodes.len()
        invariant
            i <= nodes@.len(),
            exs == text_set(ex@),
            rs == text_set(res@),
            base == old(out)@.len(),
            visible_bound(node_views(nodes@)) <= usize::MAX,
            node_views(nodes@).len() == nodes@.len(),
            forall|k: int| 0 <= k < nodes@.len() ==> #[trigger] node_views(nodes@)[k] == node_view(nodes@[k]),
            item_views(out@) == item_views(old(out)@) + search_pass(node_views(nodes@.subrange(0, i as int)), dirs, exs, rs, sel, base),
        decreases nodes@.len() - i,
    {
        let x = &nodes[i];
        let ghost a = search_pass(node_views(nodes@.subrange(0, i as int)), dirs, exs, rs, sel, base);
        proof {
            lemma_node_views_prefix(nodes@, i as int);
            let pre = node_views(nodes@.subrange(0, i as int));
            assert(pre.push(node_view(*x)).drop_last() =~= pre);
            assert(item_views(out@).len() == out@.len());
        }
        let start = out.len();
        if x.is_dir == dirs {
            if contains_path(res, x.path.as_str()) {
                let expanded = contains_path(ex, x.path.as_str());
                let row = row_of(x, 0, is_index(sel, start), expanded);
                proof {
                    lemma_item_views_push(out@, row);
                }
                out.push(row);
                if x.is_dir && expanded {
                    proof {
                        lemma_visible_bound_child(node_views(nodes@), i as int);
                    }
                    collect_search(&x.children, out, 1, ex, res, sel);
                }
            }
            proof {
                assert(start == base + a.len());
                assert(item_views(out@) =~= item_views(old(out)@) + a + search_node(x@, 0, exs, rs, sel, base + a.len()));
            }
        }
        i = i + 1;
    }
    assert(nodes@.subrange(0, nodes@.len() as int) =~= nodes@);
}

/// The rows of search mode for the tree `nodes`.
pub fn search_rows(nodes: &Vec<TreeNode>, ex: &Vec<String>, res: &Vec<String>, sel: Option<usize>) -> (r: Vec<VisibleItem>)
    requires
        visible_bound(node_views(nodes@)) <= usize::MAX,
    ensures
        item_views(r@) == search_listing(node_views(nodes@), text_set(ex@), text_set(res@), sel),
{
    let mut out: Vec<VisibleItem> = Vec::new();
    assert(item_views(out@) =~= Seq::<ItemView>::empty());
    collect_search_pass(nodes, true, &mut out, ex, res, sel);
    let ghost a = item_views(out@);
    assert(a.len() == out@.len());
    collect_search_pass(nodes, false, &mut out, ex, res, sel);
    assert(item_views(out@) =~= search_listing(node_views(nodes@), text_set(ex@), text_set(res@), sel));
    out
}

/// The rows shown while browsing the tree `nodes`.
pub fn browse_rows(nodes: &Vec<TreeNode>, ex: &Vec<String>, sel: &Option<String>) -> (r: Vec<VisibleItem>)
    requires
        visible_bound(node_views(nodes@)) <= usize::MAX,
    ensures
        item_views(r@) == browse_items(node_views(nodes@), 0, text_set(ex@), opt_text(*sel)),
{
    let mut out: Vec<VisibleItem> = Vec::new();
    assert(item_views(out@) =~= Seq::<ItemView>::empty());
    collect_browse(nodes, &mut out, 0, ex, sel);
    assert(item_views(out@) =~= browse_items(node_views(nodes@), 0, text_set(ex@), opt_text(*sel)));
    out
}

} // verus!
