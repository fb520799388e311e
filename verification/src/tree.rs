//! The file tree shown in the navigator: nodes, their order, expansion state
//! and Git status, and the flattened view that the panel draws.

use vstd::prelude::*;
use crate::text::{chars_of, first_index, has_prefix, lemma_first_index_bound, slice_chars, split_on};

verus! {

/// What `Path::parent` returns for a path, as text.
pub uninterp spec fn parent_name(p: Seq<char>) -> Option<Seq<char>>;

/// The text before the last `/` of `p`, or the empty text when it has none.
pub open spec fn before_last_slash(p: Seq<char>) -> Seq<char>
    decreases p.len(),
{
    if p.len() == 0 {
        p
    } else if p.last() == '/' {
        p.drop_last()
    } else {
        before_last_slash(p.drop_last())
    }
}

/// The parent of a path, as text: of a plain relative path, the text before
/// its last `/` (empty for a single part); of other paths, as named.
pub open spec fn parent_of(p: Seq<char>) -> Option<Seq<char>> {
    if plain_relative(p) { Some(before_last_slash(p)) } else { parent_name(p) }
}

/// What `Path::components().count()` returns for a path.
pub uninterp spec fn component_count(p: Seq<char>) -> nat;

/// Calls `Path::parent` on the path written `p`. Its documentation: the path
/// without its final component, `None` for the empty path or one that ends in
/// a root or prefix. Stated here: the result names the call, it is shorter than
/// `p` when there is one, and the empty path has none; and a plain relative
/// path, whose components are its `/`-separated parts, has as parent the text
/// before its last `/`, empty for a single part. The result is turned back
/// into text with `to_string_lossy`, which changes nothing for a path made
/// from a `&str`.
#[verifier::external_body]
pub(crate) fn path_parent(p: &str) -> (r: Option<String>)
    ensures
        match r {
            Some(q) => parent_name(p@) == Some(q@),
            None => parent_name(p@) is None,
        },
        r is Some || !plain_relative(p@),
        r matches Some(q) ==> (plain_relative(p@) ==> q@ == before_last_slash(p@)),
        r matches Some(q) ==> q@.len() < p@.len(),
        p@.len() == 0 ==> r is None,
{
    std::path::Path::new(p).parent().map(|q| q.to_string_lossy().into_owned())
}

/// Whether a path is relative and plain: not empty, without `\\` or `:`
/// (which some platforms read as separators or prefixes), its `/`-separated
/// parts all non-empty (no root, no doubled or trailing `/`), and none of
/// them `.` but possibly the first.
pub open spec fn plain_relative(p: Seq<char>) -> bool {
    let parts = split_on(p, '/');
    &&& p.len() > 0
    &&& forall|j: int| 0 <= j < p.len() ==> #[trigger] p[j] != '\\' && p[j] != ':'
    &&& forall|i: int| 0 <= i < parts.len() ==> #[trigger] parts[i].len() > 0 && (i > 0 ==> parts[i] != "."@)
}

/// Calls `Path::components` and counts them. The count is named; stated is
/// what the documentation of `components` gives for a plain relative path:
/// repeated and trailing separators and inner `.` are what it normalizes
/// away, so such a path has one component per `/`-separated part (a leading
/// `.` being the `CurDir` component).
#[verifier::external_body]
pub(crate) fn path_component_count(p: &str) -> (r: usize)
    ensures
        r == component_count(p@),
        plain_relative(p@) ==> r == split_on(p@, '/').len(),
{
    std::path::Path::new(p).components().count()
}

/// What `Path`'s equality says of the paths written `a` and `b`.
pub uninterp spec fn path_eq_name(a: Seq<char>, b: Seq<char>) -> bool;

/// Whether `Path` counts the paths written `a` and `b` as the same path:
/// equal texts are; two plain relative paths are exactly when their texts
/// are equal; of other paths the comparison is named.
pub open spec fn same_path(a: Seq<char>, b: Seq<char>) -> bool {
    if a == b {
        true
    } else if plain_relative(a) && plain_relative(b) {
        false
    } else {
        path_eq_name(a, b)
    }
}

/// Compares `Path::new(a) == Path::new(b)`. Its documentation: paths are
/// compared by their components, so `a/b`, `a/b/` and `a//b` are the same
/// path. Stated here: the result names the comparison; equal texts are the
/// same path (`Path` is `Eq`); the comparison is symmetric; and two plain
/// relative paths, whose components are their `/`-separated parts, are the
/// same path only when their texts are equal.
#[verifier::external_body]
pub(crate) fn path_equal(a: &str, b: &str) -> (r: bool)
    ensures
        r == path_eq_name(a@, b@),
        r == path_eq_name(b@, a@),
        a@ == b@ ==> r,
        plain_relative(a@) && plain_relative(b@) ==> (r <==> a@ == b@),
{
    std::path::Path::new(a) == std::path::Path::new(b)
}

/// A text without `/`, `\\` and `:` that is not empty is a plain relative path.
pub proof fn lemma_single_part_plain(p: Seq<char>)
    requires
        p.len() > 0,
        forall|j: int| 0 <= j < p.len() ==> #[trigger] p[j] != '/' && p[j] != '\\' && p[j] != ':',
    ensures
        plain_relative(p),
{
    crate::text::lemma_first_index_is(p, '/', p.len() as int);
    assert(split_on(p, '/') =~= seq![p]);
}

/// A plain relative path, `/` and a further part (not empty, not `.`,
/// without `/`, `\\` and `:`) make a plain relative path.
pub proof fn lemma_plain_child(a: Seq<char>, b: Seq<char>)
    requires
        plain_relative(a),
        b.len() > 0,
        b != "."@,
        forall|j: int| 0 <= j < b.len() ==> #[trigger] b[j] != '/' && b[j] != '\\' && b[j] != ':',
    ensures
        plain_relative(a + seq!['/'] + b),
{
    let p = a + seq!['/'] + b;
    crate::text::lemma_split_append(a, b, '/');
    let parts = split_on(p, '/');
    let pa = split_on(a, '/');
    assert(parts == pa + seq![b]);
    assert forall|i: int| 0 <= i < parts.len() implies #[trigger] parts[i].len() > 0 && (i > 0 ==> parts[i] != "."@) by {
        if i < pa.len() {
            assert(parts[i] == pa[i]);
        } else {
            assert(parts[i] == b);
        }
    }
    assert forall|j: int| 0 <= j < p.len() implies #[trigger] p[j] != '\\' && p[j] != ':' by {
        if j < a.len() {
            assert(p[j] == a[j]);
        } else if j > a.len() {
            assert(p[j] == b[j - a.len() - 1]);
        }
    }
}

/// A single node of the file tree.
#[derive(Debug, PartialEq, Eq)]
pub struct TreeNode {
    pub name: String,
    pub path: String,
    pub is_dir: bool,
    pub git_status: Option<char>,
    pub is_expanded: bool,
    pub children: Vec<TreeNode>,
    pub parent_path: Option<String>,
}

/// The mathematical value of a tree node: its texts as character sequences
/// and its children as the sequence of their values.
pub struct NodeView {
    pub name: Seq<char>,
    pub path: Seq<char>,
    pub is_dir: bool,
    pub git_status: Option<char>,
    pub is_expanded: bool,
    pub children: Seq<NodeView>,
    pub parent_path: Option<Seq<char>>,
}

/// The value of an optional text.
pub open spec fn opt_text(o: Option<String>) -> Option<Seq<char>> {
    match o {
        Some(s) => Some(s@),
        None => None,
    }
}

/// The value of a node.
pub open spec fn node_view(n: TreeNode) -> NodeView
    decreases n,
{
    NodeView {
        name: n.name@,
        path: n.path@,
        is_dir: n.is_dir,
        git_status: n.git_status,
        is_expanded: n.is_expanded,
        children: node_views(n.children@),
        parent_path: opt_text(n.parent_path),
    }
}

/// The values of a sequence of nodes.
pub open spec fn node_views(s: Seq<TreeNode>) -> Seq<NodeView>
    decreases s,
{
    if s.len() == 0 {
        Seq::empty()
    } else {
        node_views(s.drop_last()).push(node_view(s.last()))
    }
}

impl View for TreeNode {
    type V = NodeView;

    open spec fn view(&self) -> NodeView {
        node_view(*self)
    }
}

pub proof fn lemma_node_views_len(s: Seq<TreeNode>)
    ensures
        node_views(s).len() == s.len(),
    decreases s.len(),
{
    if s.len() > 0 {
        lemma_node_views_len(s.drop_last());
    }
}

pub proof fn lemma_node_views_index(s: Seq<TreeNode>, i: int)
    requires
        0 <= i < s.len(),
    ensures
        node_views(s).len() == s.len(),
        node_views(s)[i] == node_view(s[i]),
    decreases s.len(),
{
    lemma_node_views_len(s);
    if i < s.len() - 1 {
        lemma_node_views_index(s.drop_last(), i);
    }
}

pub proof fn lemma_node_views_push(s: Seq<TreeNode>, x: TreeNode)
    ensures
        node_views(s.push(x)) == node_views(s).push(node_view(x)),
{
    assert(s.push(x).drop_last() =~= s);
}

pub proof fn lemma_node_views_prefix(s: Seq<TreeNode>, i: int)
    requires
        0 <= i < s.len(),
    ensures
        node_views(s.subrange(0, i + 1)) == node_views(s.subrange(0, i)).push(node_view(s[i])),
{
    assert(s.subrange(0, i + 1).drop_last() =~= s.subrange(0, i));
}

pub proof fn lemma_node_views_all(s: Seq<TreeNode>)
    ensures
        forall|i: int| 0 <= i < s.len() ==> #[trigger] node_views(s)[i] == node_view(s[i]),
        node_views(s).len() == s.len(),
{
    lemma_node_views_len(s);
    assert forall|i: int| 0 <= i < s.len() implies #[trigger] node_views(s)[i] == node_view(s[i]) by {
        lemma_node_views_index(s, i);
    }
}

pub proof fn lemma_node_views_update(s: Seq<TreeNode>, i: int, x: TreeNode)
    requires
        0 <= i < s.len(),
    ensures
        node_views(s.update(i, x)) == node_views(s).update(i, node_view(x)),
{
    lemma_node_views_all(s);
    lemma_node_views_all(s.update(i, x));
    assert(node_views(s.update(i, x)) =~= node_views(s).update(i, node_view(x)));
}

pub proof fn lemma_node_views_insert(s: Seq<TreeNode>, k: int, x: TreeNode)
    requires
        0 <= k <= s.len(),
    ensures
        node_views(s.insert(k, x)) == node_views(s).insert(k, node_view(x)),
{
    lemma_node_views_all(s);
    lemma_node_views_all(s.insert(k, x));
    assert(node_views(s.insert(k, x)) =~= node_views(s).insert(k, node_view(x)));
}

pub proof fn lemma_node_views_remove(s: Seq<TreeNode>, k: int)
    requires
        0 <= k < s.len(),
    ensures
        node_views(s.remove(k)) == node_views(s).remove(k),
{
    lemma_node_views_all(s);
    lemma_node_views_all(s.remove(k));
    assert(node_views(s.remove(k)) =~= node_views(s).remove(k));
}

/// Lexicographic order of two texts by their characters; for Rust strings
/// this is the order of `String::cmp`, since UTF-8 keeps the order of code points.
pub open spec fn text_lt(a: Seq<char>, b: Seq<char>) -> bool
    decreases a.len(),
{
    if a.len() == 0 {
        b.len() > 0
    } else if b.len() == 0 {
        false
    } else if a[0] < b[0] {
        true
    } else if a[0] > b[0] {
        false
    } else {
        text_lt(a.drop_first(), b.drop_first())
    }
}

/// Whether `a` comes strictly before `b` among siblings: directories first,
/// then by name.
pub open spec fn node_before(a: NodeView, b: NodeView) -> bool {
    (a.is_dir && !b.is_dir) || (a.is_dir == b.is_dir && text_lt(a.name, b.name))
}

/// Where `x` goes in `s` when inserted after every node it does not precede.
pub open spec fn insert_pos(s: Seq<NodeView>, x: NodeView) -> nat
    decreases s.len(),
{
    if s.len() == 0 {
        0
    } else if node_before(x, s[0]) {
        0
    } else {
        1 + insert_pos(s.drop_first(), x)
    }
}

/// The stable sort of `s` by `node_before`: each node inserted, in order,
/// after the nodes that it does not precede.
pub open spec fn sorted_nodes(s: Seq<NodeView>) -> Seq<NodeView>
    decreases s.len(),
{
    if s.len() == 0 {
        s
    } else {
        let t = sorted_nodes(s.drop_last());
        t.insert(insert_pos(t, s.last()) as int, s.last())
    }
}

/// The number of times `c` occurs in `s`.
pub open spec fn count_char(s: Seq<char>, c: char) -> nat
    decreases s.len(),
{
    if s.len() == 0 {
        0
    } else {
        (if s[0] == c { 1nat } else { 0nat }) + count_char(s.drop_first(), c)
    }
}

/// The depth of a path below the project root, as `TreeNode::depth` counts it.
pub open spec fn path_depth(p: Seq<char>) -> nat {
    if has_prefix(p, "./"@) {
        let rest = p.subrange(2, p.len() as int);
        count_char(rest, '/')
    } else {
        let n = if plain_relative(p) { split_on(p, '/').len() } else { component_count(p) };
        if n <= 1 { 0 } else { (n - 1) as nat }
    }
}

proof fn lemma_count_char_concat(a: Seq<char>, b: Seq<char>, c: char)
    ensures
        count_char(a + b, c) == count_char(a, c) + count_char(b, c),
    decreases a.len(),
{
    if a.len() > 0 {
        assert((a + b).drop_first() =~= a.drop_first() + b);
        lemma_count_char_concat(a.drop_first(), b, c);
    } else {
        assert(a + b =~= b);
    }
}

proof fn lemma_count_char_none(s: Seq<char>, c: char)
    requires
        forall|i: int| 0 <= i < s.len() ==> s[i] != c,
    ensures
        count_char(s, c) == 0,
    decreases s.len(),
{
    if s.len() > 0 {
        assert forall|i: int| 0 <= i < s.drop_first().len() implies s.drop_first()[i] != c by {
            assert(s.drop_first()[i] == s[i + 1]);
        }
        lemma_count_char_none(s.drop_first(), c);
    }
}

/// A text splits into one piece more than it holds separators.
proof fn lemma_split_len(s: Seq<char>, c: char)
    ensures
        split_on(s, c).len() == count_char(s, c) + 1,
    decreases s.len(),
{
    lemma_first_index_bound(s, c);
    let k = first_index(s, c);
    if k < s.len() {
        let rest = s.subrange(k as int + 1, s.len() as int);
        lemma_split_len(rest, c);
        let head = s.subrange(0, k as int);
        lemma_count_char_none(head, c);
        assert(s =~= head + seq![c] + rest);
        lemma_count_char_concat(head + seq![c], rest, c);
        lemma_count_char_concat(head, seq![c], c);
        assert(seq![c].drop_first() =~= Seq::<char>::empty());
        assert(count_char(seq![c], c) == 1 + count_char(Seq::<char>::empty(), c));
        assert(count_char(s, c) == count_char(rest, c) + 1);
        assert(split_on(s, c) == seq![head] + split_on(rest, c));
    } else {
        lemma_count_char_none(s, c);
    }
}

/// A leading `./` adds no depth: a plain relative path has one level per
/// `/` in it, with or without the prefix; `./` alone and `.` are at depth 0.
pub proof fn law_dot_prefix_adds_no_depth(p: Seq<char>)
    requires
        plain_relative(p),
        !has_prefix(p, "./"@),
    ensures
        path_depth(p) == count_char(p, '/'),
        path_depth("./"@ + p) == path_depth(p),
        path_depth("./"@) == 0,
        path_depth("."@) == 0,
{
    reveal_strlit("./");
    reveal_strlit(".");
    lemma_split_len(p, '/');
    let q = "./"@ + p;
    assert(q.subrange(0, 2) =~= "./"@);
    assert(q.subrange(2, q.len() as int) =~= p);
    assert("./"@.subrange(0, 2) =~= "./"@);
    assert("./"@.subrange(2, 2) =~= Seq::<char>::empty());
    let dot = "."@;
    lemma_split_len(dot, '/');
    assert(count_char(dot, '/') == 0) by {
        assert(dot.drop_first() =~= Seq::<char>::empty());
    }
    lemma_first_index_bound(dot, '/');
    assert(split_on(dot, '/') =~= seq![dot]);
    assert(plain_relative(dot));
}

pub proof fn lemma_insert_pos_is(s: Seq<NodeView>, x: NodeView, k: int)
    requires
        0 <= k <= s.len(),
        forall|j: int| 0 <= j < k ==> !node_before(x, #[trigger] s[j]),
        k == s.len() || node_before(x, s[k]),
    ensures
        insert_pos(s, x) == k,
    decreases k,
{
    if k > 0 {
        assert forall|j: int| 0 <= j < k - 1 implies !node_before(x, #[trigger] s.drop_first()[j]) by {
            assert(s.drop_first()[j] == s[j + 1]);
        }
        lemma_insert_pos_is(s.drop_first(), x, k - 1);
    }
}

pub proof fn lemma_insert_pos_bound(s: Seq<NodeView>, x: NodeView)
    ensures
        insert_pos(s, x) <= s.len(),
    decreases s.len(),
{
    if s.len() > 0 && !node_before(x, s[0]) {
        lemma_insert_pos_bound(s.drop_first(), x);
    }
}

pub proof fn lemma_sorted_len(s: Seq<NodeView>)
    ensures
        sorted_nodes(s).len() == s.len(),
    decreases s.len(),
{
    if s.len() > 0 {
        lemma_sorted_len(s.drop_last());
        lemma_insert_pos_bound(sorted_nodes(s.drop_last()), s.last());
    }
}

/// Whether the text `a` sorts strictly before the text `b`.
pub fn text_less(a: &[char], b: &[char]) -> (r: bool)
    ensures
        r == text_lt(a@, b@),
{
    let mut i: usize = 0;
    proof {
        assert(a@.subrange(0, a@.len() as int) =~= a@);
        assert(b@.subrange(0, b@.len() as int) =~= b@);
    }
    while i < a.len() && i < b.len() && a[i] == b[i]
        invariant
            i <= a@.len(),
            i <= b@.len(),
            text_lt(a@, b@) == text_lt(a@.subrange(i as int, a@.len() as int), b@.subrange(i as int, b@.len() as int)),
        decreases a@.len() - i,
    {
        proof {
            let x = a@.subrange(i as int, a@.len() as int);
            let y = b@.subrange(i as int, b@.len() as int);
            assert(x.drop_first() =~= a@.subrange(i + 1, a@.len() as int));
            assert(y.drop_first() =~= b@.subrange(i + 1, b@.len() as int));
        }
        i = i + 1;
    }
    let ghost x = a@.subrange(i as int, a@.len() as int);
    let ghost y = b@.subrange(i as int, b@.len() as int);
    if i == a.len() {
        assert(x.len() == 0);
        assert(text_lt(x, y) == (y.len() > 0));
        i < b.len()
    } else if i == b.len() {
        assert(x.len() > 0 && y.len() == 0);
        assert(!text_lt(x, y));
        false
    } else {
        assert(x[0] == a@[i as int] && y[0] == b@[i as int]);
        assert(x[0] != y[0]);
        a[i] < b[i]
    }
}

/// Whether `a` comes strictly before `b` among siblings.
pub fn comes_before(a: &TreeNode, b: &TreeNode) -> (r: bool)
    ensures
        r == node_before(a@, b@),
{
    if a.is_dir && !b.is_dir {
        true
    } else if a.is_dir != b.is_dir {
        false
    } else {
        let x = chars_of(a.name.as_str());
        let y = chars_of(b.name.as_str());
        text_less(x.as_slice(), y.as_slice())
    }
}

/// Inserts `x` into `v` after every node that it does not precede.
fn insert_sorted(v: &mut Vec<TreeNode>, x: TreeNode)
    ensures
        node_views(final(v)@) == node_views(old(v)@).insert(insert_pos(node_views(old(v)@), x@) as int, x@),
{
    let ghost vs = node_views(v@);
    proof {
        lemma_node_views_all(v@);
    }
    let mut k: usize = 0;
    while k < v.len() && !comes_before(&x, &v[k])
        invariant
            v@ == old(v)@,
            vs == node_views(v@),
            vs.len() == v@.len(),
            forall|i: int| 0 <= i < v@.len() ==> #[trigger] vs[i] == node_view(v@[i]),
            k <= v@.len(),
            forall|j: int| 0 <= j < k ==> !node_before(x@, #[trigger] vs[j]),
        decreases v@.len() - k,
    {
        k = k + 1;
    }
    proof {
        lemma_insert_pos_is(vs, x@, k as int);
        lemma_node_views_insert(v@, k as int, x);
    }
    v.insert(k, x);
}

/// The nodes of `v` in sibling order, equal nodes keeping their order (a
/// stable sort).
pub fn sort_nodes(v: Vec<TreeNode>) -> (r: Vec<TreeNode>)
    ensures
        node_views(r@) == sorted_nodes(node_views(v@)),
{
    let ghost all = v@;
    let mut src = v;
    let n = src.len();
    let mut rest: Vec<TreeNode> = Vec::new();
    while src.len() > 0
        invariant
            n == all.len(),
            src@.len() + rest@.len() == n,
            src@ == all.subrange(0, src@.len() as int),
            forall|j: int| 0 <= j < rest@.len() ==> #[trigger] rest@[j] == all[n - 1 - j],
        decreases src@.len(),
    {
        let x = src.pop().unwrap();
        rest.push(x);
    }
    let mut out: Vec<TreeNode> = Vec::new();
    let mut i: usize = 0;
    proof {
        lemma_node_views_all(all);
        assert(node_views(all.subrange(0, 0)) =~= Seq::<NodeView>::empty());
        assert(sorted_nodes(Seq::<NodeView>::empty()) =~= Seq::<NodeView>::empty());
    }
    while i < n
        invariant
            n == all.len(),
            i <= n,
            rest@.len() == n - i,
            forall|j: int| 0 <= j < n - i ==> #[trigger] rest@[j] == all[n - 1 - j],
            node_views(out@) == sorted_nodes(node_views(all.subrange(0, i as int))),
        decreases n - i,
    {
        let x = rest.pop().unwrap();
        proof {
            assert(x == all[i as int]);
            lemma_node_views_prefix(all, i as int);
            let pre = node_views(all.subrange(0, i + 1));
            assert(pre.drop_last() == node_views(all.subrange(0, i as int)));
        }
        insert_sorted(&mut out, x);
        i = i + 1;
    }
    assert(all.subrange(0, n as int) =~= all);
    out
}

pub proof fn lemma_count_char_last(s: Seq<char>, c: char)
    requires
        s.len() > 0,
    ensures
        count_char(s, c) == count_char(s.drop_last(), c) + (if s.last() == c { 1nat } else { 0nat }),
    decreases s.len(),
{
    if s.len() > 1 {
        lemma_count_char_last(s.drop_first(), c);
        assert(s.drop_first().drop_last() =~= s.drop_last().drop_first());
        assert(s.drop_first().last() == s.last());
        assert(s.drop_last()[0] == s[0]);
    } else {
        assert(s.drop_first().len() == 0);
        assert(s.drop_last().len() == 0);
        assert(s.last() == s[0]);
        assert(count_char(s.drop_last(), c) == 0);
        assert(count_char(s.drop_first(), c) == 0);
    }
}

impl TreeNode {
    /// A node that is not expanded, has no children and no Git status.
    pub fn new(name: String, path: String, is_dir: bool) -> (r: Self)
        ensures
            r@.name == name@,
            r@.path == path@,
            r@.is_dir == is_dir,
            r@.git_status is None,
            !r@.is_expanded,
            r@.children.len() == 0,
            r@.parent_path == parent_of(path@),
    {
        let parent_path = path_parent(path.as_str());
        let r = TreeNode {
            name,
            path,
            is_dir,
            git_status: None,
            is_expanded: false,
            children: Vec::new(),
            parent_path,
        };
        proof {
            lemma_node_views_len(r.children@);
        }
        r
    }

    /// A new directory node.
    pub fn new_dir(name: String, path: String) -> (r: Self)
        ensures
            r@.name == name@,
            r@.path == path@,
            r@.is_dir,
            r@.git_status is None,
            !r@.is_expanded,
            r@.children.len() == 0,
            r@.parent_path == parent_of(path@),
    {
        Self::new(name, path, true)
    }

    /// A new file node.
    pub fn new_file(name: String, path: String) -> (r: Self)
        ensures
            r@.name == name@,
            r@.path == path@,
            !r@.is_dir,
            r@.git_status is None,
            !r@.is_expanded,
            r@.children.len() == 0,
            r@.parent_path == parent_of(path@),
    {
        Self::new(name, path, false)
    }

    /// The node with its Git status set.
    pub fn with_git_status(self, status: char) -> (r: Self)
        ensures
            r@ == (NodeView { git_status: Some(status), ..self@ }),
    {
        let mut n = self;
        n.git_status = Some(status);
        n
    }

    /// Adds a child to a directory, keeping the children in sibling order;
    /// a file takes no children.
    pub fn add_child(&mut self, child: TreeNode)
        ensures
            final(self)@ == (NodeView {
                children: if old(self)@.is_dir {
                    sorted_nodes(old(self)@.children.push(child@))
                } else {
                    old(self)@.children
                },
                ..old(self)@
            }),
            final(self)@.children.len() == old(self)@.children.len() + (if old(self)@.is_dir { 1int } else { 0int }),
    {
        proof {
            lemma_sorted_len(self@.children.push(child@));
        }
        if self.is_dir {
            let mut kids = Vec::new();
            std::mem::swap(&mut kids, &mut self.children);
            proof {
                lemma_node_views_push(kids@, child);
            }
            kids.push(child);
            self.children = sort_nodes(kids);
        }
    }

    /// Removes the first child with the given path and returns it.
    pub fn remove_child(&mut self, path: &str) -> (r: Option<TreeNode>)
        ensures
            match r {
                Some(c) => exists|i: int| 0 <= i < old(self)@.children.len()
                    && old(self)@.children[i] == c@
                    && same_path(c@.path, path@)
                    && (forall|j: int| 0 <= j < i ==> !same_path(old(self)@.children[j].path, path@))
                    && final(self)@ == (NodeView { children: old(self)@.children.remove(i), ..old(self)@ }),
                None => (forall|j: int| 0 <= j < old(self)@.children.len() ==> !same_path(old(self)@.children[j].path, path@))
                    && final(self)@ == old(self)@,
            },
    {
        proof {
            lemma_node_views_all(self.children@);
        }
        match self.position_of(path) {
            Some(i) => {
                proof {
                    lemma_node_views_remove(self.children@, i as int);
                }
                let c = self.children.remove(i);
                Some(c)
            }
            None => None,
        }
    }

    /// The index of the first child with the given path.
    fn position_of(&self, path: &str) -> (r: Option<usize>)
        ensures
            node_views(self.children@).len() == self.children@.len(),
            match r {
                Some(i) => i < self.children@.len() && same_path(self@.children[i as int].path, path@)
                    && forall|j: int| 0 <= j < i ==> !same_path(self@.children[j].path, path@),
                None => forall|j: int| 0 <= j < self.children@.len() ==> !same_path(self@.children[j].path, path@),
            },
    {
        proof {
            lemma_node_views_all(self.children@);
        }
        let mut i: usize = 0;
        while i < self.children.len()
            invariant
                i <= self.children@.len(),
                node_views(self.children@).len() == self.children@.len(),
                forall|k: int| 0 <= k < self.children@.len() ==> #[trigger] node_views(self.children@)[k] == node_view(self.children@[k]),
                forall|j: int| 0 <= j < i ==> !same_path(self@.children[j].path, path@),
            decreases self.children@.len() - i,
        {
            if path_equal(self.children[i].path.as_str(), path) {
                return Some(i);
            }
            i = i + 1;
        }
        None
    }

    /// The first child with the given path.
    pub fn find_child(&self, path: &str) -> (r: Option<&TreeNode>)
        ensures
            match r {
                Some(c) => exists|i: int| 0 <= i < self@.children.len()
                    && self@.children[i] == c@
                    && same_path(c@.path, path@)
                    && forall|j: int| 0 <= j < i ==> !same_path(self@.children[j].path, path@),
                None => forall|j: int| 0 <= j < self@.children.len() ==> !same_path(self@.children[j].path, path@),
            },
    {
        proof {
            lemma_node_views_all(self.children@);
        }
        match self.position_of(path) {
            Some(i) => Some(&self.children[i]),
            None => None,
        }
    }

    /// The first child with the given path, to be changed in place.
    pub fn find_child_mut(&mut self, path: &str) -> (r: Option<&mut TreeNode>)
        ensures
            match r {
                Some(c) => exists|i: int| #![trigger old(self)@.children[i]]
                    0 <= i < old(self)@.children.len()
                    && same_path(old(self)@.children[i].path, path@)
                    && (forall|j: int| 0 <= j < i ==> !same_path(old(self)@.children[j].path, path@))
                    && (*c)@ == old(self)@.children[i]
                    && final(self)@ == (NodeView { children: old(self)@.children.update(i, (*final(c))@), ..old(self)@ }),
                None => (forall|j: int| 0 <= j < old(self)@.children.len() ==> !same_path(old(self)@.children[j].path, path@))
                    && final(self)@ == old(self)@,
            },
    {
        match self.position_of(path) {
            Some(i) => {
                let ghost before = self.children@;
                proof {
                    lemma_node_views_all(before);
                }
                let c = &mut self.children[i];
                proof {
                    lemma_node_views_update(before, i as int, *final(c));
                    assert(node_view(*c) == old(self)@.children[i as int]);
                }
                Some(c)
            },
            None => None,
        }
    }

    /// Expands a directory; a file stays as it is.
    pub fn expand(&mut self)
        ensures
            final(self)@ == (NodeView { is_expanded: old(self)@.is_expanded || old(self)@.is_dir, ..old(self)@ }),
    {
        if self.is_dir {
            self.is_expanded = true;
        }
    }

    /// Collapses a directory; a file stays as it is.
    pub fn collapse(&mut self)
        ensures
            final(self)@ == (NodeView { is_expanded: old(self)@.is_expanded && !old(self)@.is_dir, ..old(self)@ }),
    {
        if self.is_dir {
            self.is_expanded = false;
        }
    }

    /// Flips the expansion of a directory; a file stays as it is.
    pub fn toggle_expansion(&mut self)
        ensures
            final(self)@ == (NodeView {
                is_expanded: if old(self)@.is_dir { !old(self)@.is_expanded } else { old(self)@.is_expanded },
                ..old(self)@
            }),
    {
        if self.is_dir {
            self.is_expanded = !self.is_expanded;
        }
    }

    /// Whether the node has children.
    pub fn has_children(&self) -> (r: bool)
        ensures
            r == (self@.children.len() > 0),
    {
        proof {
            lemma_node_views_len(self.children@);
        }
        self.children.len() > 0
    }

    /// The depth of the node below the project root: for a path written
    /// `./..`, the number of `/` after the prefix; otherwise one less than the
    /// number of path components, and 0 for a path of at most one component.
    pub fn depth(&self) -> (r: usize)
        ensures
            r == path_depth(self@.path),
    {
        let p = chars_of(self.path.as_str());
        proof {
            reveal_strlit("./");
        }
        if p.len() >= 2 && p[0] == '.' && p[1] == '/' {
            assert(has_prefix(p@, "./"@)) by {
                assert(p@.subrange(0, 2) =~= "./"@);
            }
            let rest = slice_chars(p.as_slice(), 2, p.len());
            let mut count: usize = 0;
            let rl = rest.len();
            let mut i: usize = rl;
            assert(rest@.subrange(0, rest@.len() as int) =~= rest@);
            while i > 0
                invariant
                    rl == rest@.len(),
                    i <= rest@.len(),
                    count <= rest@.len() - i,
                    count_char(rest@, '/') == count + count_char(rest@.subrange(0, i as int), '/'),
                decreases i,
            {
                proof {
                    lemma_count_char_last(rest@.subrange(0, i as int), '/');
                    assert(rest@.subrange(0, i as int).drop_last() =~= rest@.subrange(0, i - 1));
                }
                if rest[i - 1] == '/' {
                    count = count + 1;
                }
                i = i - 1;
            }
            assert(rest@.subrange(0, 0) =~= Seq::<char>::empty());
            count
        } else {
            assert(!has_prefix(p@, "./"@)) by {
                if p@.len() >= 2 {
                    assert(p@.subrange(0, 2)[0] == p@[0]);
                    assert(p@.subrange(0, 2)[1] == p@[1]);
                }
            }
            let n = path_component_count(self.path.as_str());
            if n <= 1 { 0 } else { n - 1 }
        }
    }

    /// A copy of the node and its whole subtree.
    pub fn duplicate(&self) -> (r: Self)
        ensures
            r@ == self@,
        decreases self,
    {
        let mut kids: Vec<TreeNode> = Vec::new();
        let mut i: usize = 0;
        while i < self.children.len()
            invariant
                i <= self.children@.len(),
                node_views(kids@) == node_views(self.children@.subrange(0, i as int)),
            decreases self.children@.len() - i,
        {
            assert(decreases_to!(*self => self.children));
            assert(decreases_to!(self.children => self.children@));
            assert(decreases_to!(self.children@ => self.children@[i as int]));
            let c = self.children[i].duplicate();
            proof {
                lemma_node_views_prefix(self.children@, i as int);
                lemma_node_views_push(kids@, c);
            }
            kids.push(c);
            i = i + 1;
        }
        assert(self.children@.subrange(0, self.children@.len() as int) =~= self.children@);
        TreeNode {
            name: self.name.clone(),
            path: self.path.clone(),
            is_dir: self.is_dir,
            git_status: self.git_status,
            is_expanded: self.is_expanded,
            children: kids,
            parent_path: match &self.parent_path {
                Some(q) => Some(q.clone()),
                None => None,
            },
        }
    }
}


/// The first node, in pre-order, whose path is the same path as `p` (as
/// `Path` compares paths).
pub open spec fn find_path(s: Seq<NodeView>, p: Seq<char>) -> Option<NodeView>
    decreases s,
{
    if s.len() == 0 {
        None
    } else if find_path(s.drop_last(), p) is Some {
        find_path(s.drop_last(), p)
    } else {
        find_in_node(s.last(), p)
    }
}

/// The node itself when its path is `p`, else the first match below it.
pub open spec fn find_in_node(n: NodeView, p: Seq<char>) -> Option<NodeView>
    decreases n,
{
    if same_path(n.path, p) {
        Some(n)
    } else {
        find_path(n.children, p)
    }
}

/// `s` with the first node whose path is `p` (as `find_path` finds it)
/// replaced by `x`.
pub open spec fn replace_path(s: Seq<NodeView>, p: Seq<char>, x: NodeView) -> Seq<NodeView>
    decreases s,
{
    if s.len() == 0 {
        s
    } else if find_path(s.drop_last(), p) is Some {
        replace_path(s.drop_last(), p, x).push(s.last())
    } else {
        s.drop_last().push(replace_in_node(s.last(), p, x))
    }
}

/// `n` with the first node below and including it whose path is `p`
/// replaced by `x`.
pub open spec fn replace_in_node(n: NodeView, p: Seq<char>, x: NodeView) -> NodeView
    decreases n,
{
    if same_path(n.path, p) {
        x
    } else {
        NodeView { children: replace_path(n.children, p, x), ..n }
    }
}

proof fn lemma_find_some_from(s: Seq<NodeView>, i: int, p: Seq<char>)
    requires
        0 <= i < s.len(),
        find_in_node(s[i], p) is Some,
    ensures
        find_path(s, p) is Some,
    decreases s.len(),
{
    if s.len() > i + 1 {
        lemma_find_some_from(s.drop_last(), i, p);
    }
}

proof fn lemma_replace_at(s: Seq<NodeView>, i: int, p: Seq<char>, x: NodeView)
    requires
        0 <= i < s.len(),
        find_path(s.subrange(0, i), p) is None,
        find_in_node(s[i], p) is Some,
    ensures
        replace_path(s, p, x) == s.update(i, replace_in_node(s[i], p, x)),
    decreases s.len(),
{
    if s.len() == i + 1 {
        assert(s.drop_last() =~= s.subrange(0, i));
        assert(s.drop_last().push(replace_in_node(s.last(), p, x)) =~= s.update(i, replace_in_node(s[i], p, x)));
    } else {
        let d = s.drop_last();
        assert(d.subrange(0, i) =~= s.subrange(0, i));
        lemma_find_some_from(d, i, p);
        lemma_replace_at(d, i, p, x);
        assert(d.update(i, replace_in_node(s[i], p, x)).push(s.last()) =~= s.update(i, replace_in_node(s[i], p, x)));
    }
}

/// A change to the expansion of a directory.
#[derive(Clone, Copy, Debug, PartialEq, Eq)]
pub enum ExpansionChange {
    Expand,
    Collapse,
    Toggle,
}

/// The expansion flag after a change.
pub open spec fn changed_flag(e: bool, ch: ExpansionChange) -> bool {
    match ch {
        ExpansionChange::Expand => true,
        ExpansionChange::Collapse => false,
        ExpansionChange::Toggle => !e,
    }
}

/// The nodes with the first node whose path is `p` changed, if it is a directory.
pub open spec fn change_path(s: Seq<NodeView>, p: Seq<char>, ch: ExpansionChange) -> Seq<NodeView>
    decreases s,
{
    if s.len() == 0 {
        s
    } else if find_path(s.drop_last(), p) is Some {
        change_path(s.drop_last(), p, ch).push(s.last())
    } else {
        s.drop_last().push(change_in_node(s.last(), p, ch))
    }
}

/// The node, or the first match below it, changed.
pub open spec fn change_in_node(n: NodeView, p: Seq<char>, ch: ExpansionChange) -> NodeView
    decreases n,
{
    if same_path(n.path, p) {
        NodeView { is_expanded: if n.is_dir { changed_flag(n.is_expanded, ch) } else { n.is_expanded }, ..n }
    } else {
        NodeView { children: change_path(n.children, p, ch), ..n }
    }
}

/// The nodes shown when the tree is drawn: each node, then, for an expanded
/// directory, its children in the same way.
pub open spec fn visible(s: Seq<NodeView>) -> Seq<NodeView>
    decreases s,
{
    if s.len() == 0 {
        Seq::empty()
    } else {
        visible(s.drop_last()) + visible_node(s.last())
    }
}

/// A node and what it shows below itself.
pub open spec fn visible_node(n: NodeView) -> Seq<NodeView>
    decreases n,
{
    if n.is_dir && n.is_expanded {
        seq![n] + visible(n.children)
    } else {
        seq![n]
    }
}

/// The shown nodes with their display depth, the top level at depth `d`.
pub open spec fn visible_depth(s: Seq<NodeView>, d: nat) -> Seq<(NodeView, nat)>
    decreases s,
{
    if s.len() == 0 {
        Seq::empty()
    } else {
        visible_depth(s.drop_last(), d) + visible_node_depth(s.last(), d)
    }
}

/// A node at depth `d` and what it shows below itself.
pub open spec fn visible_node_depth(n: NodeView, d: nat) -> Seq<(NodeView, nat)>
    decreases n,
{
    if n.is_dir && n.is_expanded {
        seq![(n, d)] + visible_depth(n.children, d + 1)
    } else {
        seq![(n, d)]
    }
}

/// The node `n` after a change, when it is the node changed.
pub open spec fn changed_node(n: NodeView, ch: ExpansionChange) -> NodeView {
    NodeView { is_expanded: if n.is_dir { changed_flag(n.is_expanded, ch) } else { n.is_expanded }, ..n }
}

/// A change finds the node that `find_path` finds, changes it, and leaves
/// the nodes unchanged when there is none.
pub proof fn lemma_change_path_finds(s: Seq<NodeView>, p: Seq<char>, ch: ExpansionChange)
    ensures
        change_path(s, p, ch).len() == s.len(),
        find_path(s, p) is None ==> change_path(s, p, ch) == s,
        find_path(s, p) matches Some(n) ==> find_path(change_path(s, p, ch), p) == Some(changed_node(n, ch)),
    decreases s,
{
    if s.len() > 0 {
        let d = s.drop_last();
        lemma_change_path_finds(d, p, ch);
        lemma_change_in_node_finds(s.last(), p, ch);
        let c = change_path(s, p, ch);
        if find_path(d, p) is Some {
            assert(c.drop_last() =~= change_path(d, p, ch));
        } else {
            assert(c.drop_last() =~= d);
            if find_in_node(s.last(), p) is None {
                assert(c =~= s);
            }
        }
    }
}

pub proof fn lemma_change_in_node_finds(n: NodeView, p: Seq<char>, ch: ExpansionChange)
    ensures
        find_in_node(n, p) is None ==> change_in_node(n, p, ch) == n,
        find_in_node(n, p) matches Some(m) ==> find_in_node(change_in_node(n, p, ch), p) == Some(changed_node(m, ch)),
    decreases n,
{
    if !same_path(n.path, p) {
        lemma_change_path_finds(n.children, p, ch);
    }
}

/// Toggling the same path twice gives back the nodes.
proof fn lemma_toggle_path_twice(s: Seq<NodeView>, p: Seq<char>)
    ensures
        change_path(change_path(s, p, ExpansionChange::Toggle), p, ExpansionChange::Toggle) == s,
    decreases s,
{
    if s.len() > 0 {
        let t = ExpansionChange::Toggle;
        let d = s.drop_last();
        lemma_toggle_path_twice(d, p);
        lemma_toggle_node_twice(s.last(), p);
        lemma_change_path_finds(d, p, t);
        let c = change_path(s, p, t);
        if find_path(d, p) is Some {
            assert(c.drop_last() =~= change_path(d, p, t));
            assert(change_path(c, p, t) =~= s);
        } else {
            assert(c.drop_last() =~= d);
            assert(change_path(c, p, t) =~= s);
        }
    }
}

proof fn lemma_toggle_node_twice(n: NodeView, p: Seq<char>)
    ensures
        change_in_node(change_in_node(n, p, ExpansionChange::Toggle), p, ExpansionChange::Toggle) == n,
    decreases n,
{
    if !same_path(n.path, p) {
        lemma_toggle_path_twice(n.children, p);
    }
}

/// Toggling a path flips only the directory that `find_path` finds there;
/// toggling it again gives back the tree, and both calls answer alike,
/// whether the path names a directory.
pub proof fn law_toggle_twice_restores(t: FileTreeView, p: Seq<char>)
    ensures
        ({
            let once = change_path(t.root, p, ExpansionChange::Toggle);
            &&& find_path(t.root, p) matches Some(n) ==> find_path(once, p) == Some(changed_node(n, ExpansionChange::Toggle))
            &&& find_path(t.root, p) is None ==> once == t.root
            &&& (find_path(once, p) matches Some(n) && n.is_dir) == (find_path(t.root, p) matches Some(n) && n.is_dir)
            &&& change_path(once, p, ExpansionChange::Toggle) == t.root
        }),
{
    lemma_change_path_finds(t.root, p, ExpansionChange::Toggle);
    lemma_toggle_path_twice(t.root, p);
}

/// The depth listing, with depths taken away, is the plain listing; it
/// starts at depth `d`, no entry is above `d`, and each entry is at most one
/// level deeper than the one before it.
proof fn lemma_visible_depth_shape(s: Seq<NodeView>, d: nat)
    ensures
        visible_depth(s, d).map_values(|x: (NodeView, nat)| x.0) == visible(s),
        visible_depth(s, d).len() > 0 ==> visible_depth(s, d)[0].1 == d,
        forall|i: int| 0 <= i < visible_depth(s, d).len() ==> #[trigger] visible_depth(s, d)[i].1 >= d,
        forall|i: int, j: int| 0 <= i && j == i + 1 && j < visible_depth(s, d).len()
            ==> #[trigger] visible_depth(s, d)[j].1 <= #[trigger] visible_depth(s, d)[i].1 + 1,
    decreases s,
{
    if s.len() > 0 {
        let a = visible_depth(s.drop_last(), d);
        let b = visible_node_depth(s.last(), d);
        lemma_visible_depth_shape(s.drop_last(), d);
        lemma_visible_node_depth_shape(s.last(), d);
        let v = visible_depth(s, d);
        assert(v == a + b);
        assert(v.map_values(|x: (NodeView, nat)| x.0) =~= a.map_values(|x: (NodeView, nat)| x.0) + b.map_values(|x: (NodeView, nat)| x.0));
        assert forall|i: int| 0 <= i < v.len() implies #[trigger] v[i].1 >= d by {
            if i >= a.len() {
                assert(v[i] == b[i - a.len()]);
            } else {
                assert(v[i] == a[i]);
            }
        }
        assert forall|i: int, j: int| 0 <= i && j == i + 1 && j < v.len() implies #[trigger] v[j].1 <= #[trigger] v[i].1 + 1 by {
            if j < a.len() {
                assert(v[i] == a[i] && v[j] == a[j]);
            } else if i >= a.len() {
                assert(v[i] == b[i - a.len()] && v[j] == b[j - a.len()]);
            } else {
                assert(v[i] == a[i] && v[j] == b[0]);
            }
        }
    }
}

proof fn lemma_visible_node_depth_shape(n: NodeView, d: nat)
    ensures
        visible_node_depth(n, d).map_values(|x: (NodeView, nat)| x.0) == visible_node(n),
        visible_node_depth(n, d).len() > 0,
        visible_node_depth(n, d)[0].1 == d,
        forall|i: int| 0 <= i < visible_node_depth(n, d).len() ==> #[trigger] visible_node_depth(n, d)[i].1 >= d,
        forall|i: int, j: int| 0 <= i && j == i + 1 && j < visible_node_depth(n, d).len()
            ==> #[trigger] visible_node_depth(n, d)[j].1 <= #[trigger] visible_node_depth(n, d)[i].1 + 1,
    decreases n,
{
    let v = visible_node_depth(n, d);
    if n.is_dir && n.is_expanded {
        let c = visible_depth(n.children, d + 1);
        lemma_visible_depth_shape(n.children, d + 1);
        assert(v == seq![(n, d)] + c);
        assert(v.map_values(|x: (NodeView, nat)| x.0) =~= seq![n] + c.map_values(|x: (NodeView, nat)| x.0));
        assert forall|i: int| 0 <= i < v.len() implies #[trigger] v[i].1 >= d by {
            if i > 0 {
                assert(v[i] == c[i - 1]);
            }
        }
        assert forall|i: int, j: int| 0 <= i && j == i + 1 && j < v.len() implies #[trigger] v[j].1 <= #[trigger] v[i].1 + 1 by {
            if i > 0 {
                assert(v[i] == c[i - 1] && v[j] == c[j - 1]);
            } else {
                assert(v[j] == c[0]);
            }
        }
    } else {
        assert(v.map_values(|x: (NodeView, nat)| x.0) =~= seq![n]);
    }
}

/// The listing with depths shows the same nodes as the plain listing, in
/// the same order; it starts at depth 0, and each node is at most one level
/// deeper than the one shown before it.
pub proof fn law_depth_listing_agrees(t: FileTreeView)
    ensures
        visible_depth(t.root, 0).map_values(|x: (NodeView, nat)| x.0) == visible(t.root),
        visible_depth(t.root, 0).len() > 0 ==> visible_depth(t.root, 0)[0].1 == 0,
        forall|i: int, j: int| 0 <= i && j == i + 1 && j < visible_depth(t.root, 0).len()
            ==> #[trigger] visible_depth(t.root, 0)[j].1 <= #[trigger] visible_depth(t.root, 0)[i].1 + 1,
{
    lemma_visible_depth_shape(t.root, 0);
}

/// Every node of the tree, in pre-order.
pub open spec fn all_nodes(s: Seq<NodeView>) -> Seq<NodeView>
    decreases s,
{
    if s.len() == 0 {
        Seq::empty()
    } else {
        all_nodes(s.drop_last()) + all_in_node(s.last())
    }
}

/// A node and every node below it, in pre-order.
pub open spec fn all_in_node(n: NodeView) -> Seq<NodeView>
    decreases n,
{
    seq![n] + all_nodes(n.children)
}

/// The Git status recorded for a path: the last entry for it.
pub open spec fn status_lookup(m: Seq<(Seq<char>, char)>, p: Seq<char>) -> Option<char>
    decreases m.len(),
{
    if m.len() == 0 {
        None
    } else if same_path(m.last().0, p) {
        Some(m.last().1)
    } else {
        status_lookup(m.drop_last(), p)
    }
}

/// The nodes with each status from `m` applied; a node without an entry keeps its own.
pub open spec fn with_status(s: Seq<NodeView>, m: Seq<(Seq<char>, char)>) -> Seq<NodeView>
    decreases s,
{
    if s.len() == 0 {
        s
    } else {
        with_status(s.drop_last(), m).push(with_status_node(s.last(), m))
    }
}

/// A node and its subtree with the statuses from `m` applied.
pub open spec fn with_status_node(n: NodeView, m: Seq<(Seq<char>, char)>) -> NodeView
    decreases n,
{
    NodeView {
        git_status: match status_lookup(m, n.path) {
            Some(c) => Some(c),
            None => n.git_status,
        },
        children: with_status(n.children, m),
        ..n
    }
}

/// Counts over a sequence of nodes.
pub open spec fn count_dirs(s: Seq<NodeView>) -> nat
    decreases s.len(),
{
    if s.len() == 0 { 0 } else { count_dirs(s.drop_last()) + (if s.last().is_dir { 1nat } else { 0nat }) }
}

pub open spec fn count_expanded_dirs(s: Seq<NodeView>) -> nat
    decreases s.len(),
{
    if s.len() == 0 { 0 } else {
        count_expanded_dirs(s.drop_last()) + (if s.last().is_dir && s.last().is_expanded { 1nat } else { 0nat })
    }
}

pub open spec fn count_with_status(s: Seq<NodeView>) -> nat
    decreases s.len(),
{
    if s.len() == 0 { 0 } else {
        count_with_status(s.drop_last()) + (if s.last().git_status is Some { 1nat } else { 0nat })
    }
}

pub open spec fn max_path_depth(s: Seq<NodeView>) -> nat
    decreases s.len(),
{
    if s.len() == 0 {
        0
    } else {
        let m = max_path_depth(s.drop_last());
        let d = path_depth(s.last().path);
        if d > m { d } else { m }
    }
}

/// Statistics about the file tree.
#[derive(Debug, Clone, Copy, PartialEq, Eq)]
pub struct TreeStats {
    pub total_nodes: usize,
    pub files: usize,
    pub directories: usize,
    pub expanded_directories: usize,
    pub files_with_git_status: usize,
    pub max_depth: usize,
}

/// Whether `st` holds the statistics of the nodes `s`.
pub open spec fn stats_of(st: TreeStats, s: Seq<NodeView>) -> bool {
    &&& st.total_nodes == s.len()
    &&& st.directories == count_dirs(s)
    &&& st.files == s.len() - count_dirs(s)
    &&& st.expanded_directories == count_expanded_dirs(s)
    &&& st.files_with_git_status == count_with_status(s)
    &&& st.max_depth == max_path_depth(s)
}

pub proof fn lemma_count_dirs_bound(s: Seq<NodeView>)
    ensures
        count_dirs(s) <= s.len(),
        count_expanded_dirs(s) <= count_dirs(s),
        count_with_status(s) <= s.len(),
    decreases s.len(),
{
    if s.len() > 0 {
        lemma_count_dirs_bound(s.drop_last());
    }
}

/// The file tree: the top-level nodes and the Git status of paths.
#[derive(Debug)]
pub struct FileTree {
    pub root: Vec<TreeNode>,
    pub git_status_map: Vec<(String, char)>,
    pub repo_root: String,
}

/// The value of a file tree.
pub struct FileTreeView {
    pub root: Seq<NodeView>,
    pub statuses: Seq<(Seq<char>, char)>,
    pub repo_root: Seq<char>,
}

/// The value of a list of path and status pairs.
pub open spec fn status_entries(v: Seq<(String, char)>) -> Seq<(Seq<char>, char)> {
    v.map_values(|e: (String, char)| (e.0@, e.1))
}

impl View for FileTree {
    type V = FileTreeView;

    open spec fn view(&self) -> FileTreeView {
        FileTreeView {
            root: node_views(self.root@),
            statuses: status_entries(self.git_status_map@),
            repo_root: self.repo_root@,
        }
    }
}

proof fn lemma_find_push(s: Seq<NodeView>, x: NodeView, p: Seq<char>)
    ensures
        find_path(s.push(x), p) == (if find_path(s, p) is Some { find_path(s, p) } else { find_in_node(x, p) }),
{
    assert(s.push(x).drop_last() =~= s);
}

proof fn lemma_find_in_node(n: NodeView, p: Seq<char>)
    ensures
        find_in_node(n, p) == (if same_path(n.path, p) { Some(n) } else { find_path(n.children, p) }),
{
}

proof fn lemma_find_unfold(s: Seq<NodeView>, p: Seq<char>)
    requires
        s.len() > 0,
    ensures
        find_path(s, p) == (if find_path(s.drop_last(), p) is Some { find_path(s.drop_last(), p) } else { find_in_node(s.last(), p) }),
{
}

proof fn lemma_change_in_node(n: NodeView, p: Seq<char>, ch: ExpansionChange)
    ensures
        change_in_node(n, p, ch) == (if same_path(n.path, p) {
            NodeView { is_expanded: if n.is_dir { changed_flag(n.is_expanded, ch) } else { n.is_expanded }, ..n }
        } else {
            NodeView { children: change_path(n.children, p, ch), ..n }
        }),
{
}

proof fn lemma_change_push(s: Seq<NodeView>, x: NodeView, p: Seq<char>, ch: ExpansionChange)
    ensures
        change_path(s.push(x), p, ch) == (if find_path(s, p) is Some {
            change_path(s, p, ch).push(x)
        } else {
            s.push(change_in_node(x, p, ch))
        }),
{
    assert(s.push(x).drop_last() =~= s);
}

proof fn lemma_change_absent(s: Seq<NodeView>, p: Seq<char>, ch: ExpansionChange)
    requires
        find_path(s, p) is None,
    ensures
        change_path(s, p, ch) == s,
    decreases s,
{
    if s.len() > 0 {
        lemma_find_unfold(s, p);
        lemma_change_absent(s.drop_last(), p, ch);
        let n = s.last();
        lemma_find_in_node(n, p);
        assert(!same_path(n.path, p));
        lemma_change_absent(n.children, p, ch);
        lemma_change_in_node(n, p, ch);
        assert(change_in_node(n, p, ch) == n);
        lemma_change_push(s.drop_last(), n, p, ch);
        assert(s.drop_last().push(n) =~= s);
    }
}

/// Applies `ch` to the first node of `nodes` whose path is `p`; returns
/// whether that node is a directory, or `None` when there is none.
fn change_nodes(nodes: Vec<TreeNode>, p: &str, ch: ExpansionChange) -> (r: (Vec<TreeNode>, Option<bool>))
    ensures
        node_views(r.0@) == change_path(node_views(nodes@), p@, ch),
        r.1 == match find_path(node_views(nodes@), p@) {
            Some(n) => Some(n.is_dir),
            None => None::<bool>,
        },
    decreases nodes@,
{
    let ghost all = nodes@;
    let mut src = nodes;
    let n = src.len();
    let mut rest: Vec<TreeNode> = Vec::new();
    while src.len() > 0
        invariant
            n == all.len(),
            src@.len() + rest@.len() == n,
            src@ == all.subrange(0, src@.len() as int),
            forall|j: int| 0 <= j < rest@.len() ==> #[trigger] rest@[j] == all[n - 1 - j],
            all == nodes@,
        decreases src@.len(),
    {
        let x = src.pop().unwrap();
        rest.push(x);
    }
    let mut out: Vec<TreeNode> = Vec::new();
    let mut found: Option<bool> = None;
    let mut i: usize = 0;
    proof {
        assert(all.subrange(0, 0) =~= Seq::<TreeNode>::empty());
    }
    while i < n
        invariant
            n == all.len(),
            i <= n,
            rest@.len() == n - i,
            forall|j: int| 0 <= j < n - i ==> #[trigger] rest@[j] == all[n - 1 - j],
            all == nodes@,
            node_views(out@) == change_path(node_views(all.subrange(0, i as int)), p@, ch),
            found == match find_path(node_views(all.subrange(0, i as int)), p@) {
                Some(m) => Some(m.is_dir),
                None => None::<bool>,
            },
        decreases n - i,
    {
        let x = rest.pop().unwrap();
        let ghost pre = node_views(all.subrange(0, i as int));
        proof {
            assert(x == all[i as int]);
            lemma_node_views_prefix(all, i as int);
            lemma_find_push(pre, node_view(x), p@);
            lemma_change_push(pre, node_view(x), p@, ch);
            lemma_find_in_node(node_view(x), p@);
            lemma_change_in_node(node_view(x), p@, ch);
        }
        if found.is_some() {
            proof {
                lemma_node_views_push(out@, x);
            }
            out.push(x);
        } else {
            if path_equal(x.path.as_str(), p) {
                let mut y = x;
                found = Some(y.is_dir);
                if y.is_dir {
                    match ch {
                        ExpansionChange::Expand => { y.is_expanded = true; }
                        ExpansionChange::Collapse => { y.is_expanded = false; }
                        ExpansionChange::Toggle => { y.is_expanded = !y.is_expanded; }
                    }
                }
                proof {
                    lemma_change_absent(pre, p@, ch);
                    lemma_node_views_push(out@, y);
                }
                out.push(y);
            } else {
                let TreeNode { name, path, is_dir, git_status, is_expanded, children, parent_path } = x;
                proof {
                    assert(children == all[i as int].children);
                    assert(decreases_to!(all => all[i as int]));
                    assert(decreases_to!(all[i as int] => all[i as int].children));
                    assert(decreases_to!(all[i as int].children => all[i as int].children@));
                    assert(decreases_to!(all => children@));
                    assert(all == nodes@);
                }
                let (kids, r) = change_nodes(children, p, ch);
                found = r;
                let y = TreeNode { name, path, is_dir, git_status, is_expanded, children: kids, parent_path };
                proof {
                    lemma_change_absent(pre, p@, ch);
                    lemma_node_views_push(out@, y);
                }
                out.push(y);
            }
        }
        i = i + 1;
    }
    assert(all.subrange(0, n as int) =~= all);
    (out, found)
}

proof fn lemma_find_prefix(s: Seq<TreeNode>, k: int, j: int, p: Seq<char>)
    requires
        0 <= k <= j <= s.len(),
        find_path(node_views(s.subrange(0, k)), p) is Some,
    ensures
        find_path(node_views(s.subrange(0, j)), p) == find_path(node_views(s.subrange(0, k)), p),
    decreases j - k,
{
    if j > k {
        lemma_find_prefix(s, k, j - 1, p);
        lemma_node_views_prefix(s, j - 1);
        lemma_find_push(node_views(s.subrange(0, j - 1)), node_view(s[j - 1]), p);
    }
}

/// The first node whose path is `p`, by reference.
fn find_nodes<'a>(nodes: &'a Vec<TreeNode>, p: &str) -> (r: Option<&'a TreeNode>)
    ensures
        match r {
            Some(n) => find_path(node_views(nodes@), p@) == Some(n@),
            None => find_path(node_views(nodes@), p@) is None,
        },
    decreases nodes@,
{
    let mut i: usize = 0;
    proof {
        assert(nodes@.subrange(0, 0) =~= Seq::<TreeNode>::empty());
    }
    while i < nodes.len()
        invariant
            i <= nodes@.len(),
            find_path(node_views(nodes@.subrange(0, i as int)), p@) is None,
        decreases nodes@.len() - i,
    {
        let x = &nodes[i];
        proof {
            let pre = node_views(nodes@.subrange(0, i as int));
            lemma_node_views_prefix(nodes@, i as int);
            lemma_find_push(pre, node_view(*x), p@);
            lemma_find_in_node(node_view(*x), p@);
        }
        if path_equal(x.path.as_str(), p) {
            proof {
                lemma_find_prefix(nodes@, i + 1, nodes@.len() as int, p@);
                assert(nodes@.subrange(0, nodes@.len() as int) =~= nodes@);
            }
            return Some(x);
        }
        proof {
            assert(decreases_to!(nodes@ => nodes@[i as int]));
            assert(decreases_to!(nodes@[i as int] => nodes@[i as int].children));
            assert(decreases_to!(nodes@[i as int].children => nodes@[i as int].children@));
        }
        match find_nodes(&x.children, p) {
            Some(found) => {
                proof {
                    lemma_find_prefix(nodes@, i + 1, nodes@.len() as int, p@);
                    assert(nodes@.subrange(0, nodes@.len() as int) =~= nodes@);
                }
                return Some(found);
            }
            None => {}
        }
        i = i + 1;
    }
    assert(nodes@.subrange(0, nodes@.len() as int) =~= nodes@);
    None
}

/// The first node whose path is `p`, to be changed in place.
#[verifier::loop_isolation(false)]
fn find_nodes_mut<'a>(nodes: &'a mut Vec<TreeNode>, p: &str) -> (r: Option<&'a mut TreeNode>)
    ensures
        match r {
            Some(n) => find_path(node_views(old(nodes)@), p@) == Some((*n)@)
                && node_views(final(nodes)@) == replace_path(node_views(old(nodes)@), p@, (*final(n))@),
            None => find_path(node_views(old(nodes)@), p@) is None && final(nodes)@ == old(nodes)@,
        },
    decreases old(nodes)@,
{
    let ghost s0 = nodes@;
    proof {
        lemma_node_views_all(s0);
        assert(s0.subrange(0, 0) =~= Seq::<TreeNode>::empty());
    }
    let mut i: usize = 0;
    while i < nodes.len()
        invariant
            nodes@ == s0,
            i <= s0.len(),
            node_views(s0).len() == s0.len(),
            forall|k: int| 0 <= k < s0.len() ==> #[trigger] node_views(s0)[k] == node_view(s0[k]),
            find_path(node_views(s0.subrange(0, i as int)), p@) is None,
        decreases s0.len() - i,
    {
        let ghost views = node_views(s0);
        proof {
            lemma_node_views_prefix(s0, i as int);
            lemma_find_push(node_views(s0.subrange(0, i as int)), node_view(s0[i as int]), p@);
            lemma_find_in_node(node_view(s0[i as int]), p@);
            assert(node_views(s0.subrange(0, i as int)) =~= views.subrange(0, i as int)) by {
                lemma_node_views_all(s0.subrange(0, i as int));
            }
        }
        if path_equal(nodes[i].path.as_str(), p) {
            let ghost vi = views[i as int];
            proof {
                assert(same_path(vi.path, p@));
                assert(find_in_node(vi, p@) == Some(vi));
                lemma_find_prefix(s0, i + 1, s0.len() as int, p@);
                assert(s0.subrange(0, s0.len() as int) =~= s0);
                assert(find_path(views, p@) == Some(vi));
                assert forall|x: TreeNode| #[trigger] node_views(s0.update(i as int, x)) == views.update(i as int, node_view(x)) by {
                    lemma_node_views_update(s0, i as int, x);
                }
                assert forall|v: NodeView| #[trigger] replace_path(views, p@, v) == views.update(i as int, v) by {
                    lemma_replace_at(views, i as int, p@, v);
                }
            }
            return Some(&mut nodes[i]);
        }
        let below = find_nodes(&nodes[i].children, p).is_some();
        if below {
            proof {
                assert(find_in_node(views[i as int], p@) is Some);
                lemma_find_prefix(s0, i + 1, s0.len() as int, p@);
                assert(s0.subrange(0, s0.len() as int) =~= s0);
                assert(decreases_to!(s0 => s0[i as int]));
                assert(decreases_to!(s0[i as int] => s0[i as int].children));
                assert(decreases_to!(s0[i as int].children => s0[i as int].children@));
                assert(decreases_to!(s0 => s0[i as int].children@));
            }
            let ghost vi = views[i as int];
            proof {
                assert forall|x: TreeNode| #[trigger] node_views(s0.update(i as int, x)) == views.update(i as int, node_view(x)) by {
                    lemma_node_views_update(s0, i as int, x);
                }
                assert forall|v: NodeView| #[trigger] replace_path(views, p@, v) == views.update(i as int, replace_in_node(vi, p@, v)) by {
                    lemma_replace_at(views, i as int, p@, v);
                }
                assert(!same_path(vi.path, p@));
                assert(vi.children == node_views(s0[i as int].children@));
            }
            return find_nodes_mut(&mut nodes[i].children, p);
        }
        i = i + 1;
    }
    assert(s0.subrange(0, s0.len() as int) =~= s0);
    None
}

/// Appends the shown nodes below and including `nodes` to `out`.
fn collect_visible<'a>(nodes: &'a Vec<TreeNode>, out: &mut Vec<&'a TreeNode>)
    ensures
        final(out)@.map_values(|x: &TreeNode| x@) == old(out)@.map_values(|x: &TreeNode| x@) + visible(node_views(nodes@)),
    decreases nodes@,
{
    let mut i: usize = 0;
    proof {
        assert(nodes@.subrange(0, 0) =~= Seq::<TreeNode>::empty());
        assert(visible(Seq::<NodeView>::empty()) =~= Seq::<NodeView>::empty());
        assert(out@.map_values(|x: &TreeNode| x@) + Seq::<NodeView>::empty() =~= out@.map_values(|x: &TreeNode| x@));
    }
    while i < nodes.len()
        invariant
            i <= nodes@.len(),
            out@.map_values(|x: &TreeNode| x@) == old(out)@.map_values(|x: &TreeNode| x@) + visible(node_views(nodes@.subrange(0, i as int))),
        decreases nodes@.len() - i,
    {
        let x = &nodes[i];
        let ghost before = out@.map_values(|y: &TreeNode| y@);
        proof {
            lemma_node_views_prefix(nodes@, i as int);
            let pre = node_views(nodes@.subrange(0, i as int));
            assert(pre.push(node_view(*x)).drop_last() =~= pre);
        }
        out.push(x);
        assert(out@.map_values(|y: &TreeNode| y@) =~= before.push(x@));
        if x.is_dir && x.is_expanded {
            proof {
                assert(decreases_to!(nodes@ => nodes@[i as int]));
                assert(decreases_to!(nodes@[i as int] => nodes@[i as int].children));
                assert(decreases_to!(nodes@[i as int].children => nodes@[i as int].children@));
            }
            collect_visible(&x.children, out);
        }
        proof {
            let pre = node_views(nodes@.subrange(0, i as int));
            assert(visible_node(x@) =~= (if x@.is_dir && x@.is_expanded { seq![x@] + visible(x@.children) } else { seq![x@] }));
            assert(out@.map_values(|y: &TreeNode| y@) =~= old(out)@.map_values(|y: &TreeNode| y@) + visible(pre) + visible_node(x@));
        }
        i = i + 1;
    }
    assert(nodes@.subrange(0, nodes@.len() as int) =~= nodes@);
}

/// Appends the shown nodes below and including `nodes`, with their depth, to `out`.
fn collect_visible_depth<'a>(nodes: &'a Vec<TreeNode>, out: &mut Vec<(&'a TreeNode, usize)>, d: usize)
    requires
        d + visible_bound(node_views(nodes@)) <= usize::MAX,
    ensures
        final(out)@.map_values(|x: (&TreeNode, usize)| (x.0@, x.1 as nat)) == old(out)@.map_values(|x: (&TreeNode, usize)| (x.0@, x.1 as nat)) + visible_depth(node_views(nodes@), d as nat),
    decreases nodes@,
{
    let mut i: usize = 0;
    proof {
        assert(nodes@.subrange(0, 0) =~= Seq::<TreeNode>::empty());
        assert(visible_depth(Seq::<NodeView>::empty(), d as nat) =~= Seq::<(NodeView, nat)>::empty());
        assert(out@.map_values(|x: (&TreeNode, usize)| (x.0@, x.1 as nat)) + Seq::<(NodeView, nat)>::empty() =~= out@.map_values(|x: (&TreeNode, usize)| (x.0@, x.1 as nat)));
        lemma_node_views_all(nodes@);
    }
    while i < nodes.len()
        invariant
            i <= nodes@.len(),
            d + visible_bound(node_views(nodes@)) <= usize::MAX,
            node_views(nodes@).len() == nodes@.len(),
            forall|k: int| 0 <= k < nodes@.len() ==> #[trigger] node_views(nodes@)[k] == node_view(nodes@[k]),
            out@.map_values(|x: (&TreeNode, usize)| (x.0@, x.1 as nat)) == old(out)@.map_values(|x: (&TreeNode, usize)| (x.0@, x.1 as nat)) + visible_depth(node_views(nodes@.subrange(0, i as int)), d as nat),
        decreases nodes@.len() - i,
    {
        let x = &nodes[i];
        let ghost before = out@.map_values(|y: (&TreeNode, usize)| (y.0@, y.1 as nat));
        proof {
            lemma_node_views_prefix(nodes@, i as int);
            let pre = node_views(nodes@.subrange(0, i as int));
            assert(pre.push(node_view(*x)).drop_last() =~= pre);
        }
        out.push((x, d));
        assert(out@.map_values(|y: (&TreeNode, usize)| (y.0@, y.1 as nat)) =~= before.push((x@, d as nat)));
        if x.is_dir && x.is_expanded {
            proof {
                assert(decreases_to!(nodes@ => nodes@[i as int]));
                assert(decreases_to!(nodes@[i as int] => nodes@[i as int].children));
                assert(decreases_to!(nodes@[i as int].children => nodes@[i as int].children@));
                lemma_visible_bound_child(node_views(nodes@), i as int);
            }
            collect_visible_depth(&x.children, out, d + 1);
        }
        proof {
            let pre = node_views(nodes@.subrange(0, i as int));
            assert(out@.map_values(|y: (&TreeNode, usize)| (y.0@, y.1 as nat)) =~= old(out)@.map_values(|y: (&TreeNode, usize)| (y.0@, y.1 as nat)) + visible_depth(pre, d as nat) + visible_node_depth(x@, d as nat));
        }
        i = i + 1;
    }
    assert(nodes@.subrange(0, nodes@.len() as int) =~= nodes@);
}

/// The height of the tree: how deep its levels go.
pub open spec fn visible_bound(s: Seq<NodeView>) -> nat
    decreases s,
{
    if s.len() == 0 {
        0
    } else {
        let a = visible_bound(s.drop_last());
        let b = 1 + visible_bound(s.last().children);
        if a > b { a } else { b }
    }
}

/// The height of the tree made of `nodes`, or `None` when it does not fit
/// in a `usize`.
pub fn tree_height(nodes: &Vec<TreeNode>) -> (r: Option<usize>)
    ensures
        match r {
            Some(h) => h == visible_bound(node_views(nodes@)),
            None => visible_bound(node_views(nodes@)) > usize::MAX,
        },
    decreases nodes@,
{
    let ghost s = nodes@;
    proof {
        lemma_node_views_all(s);
        assert(s.subrange(0, 0) =~= Seq::<TreeNode>::empty());
    }
    let mut best: usize = 0;
    let mut i: usize = 0;
    while i < nodes.len()
        invariant
            s == nodes@,
            i <= s.len(),
            node_views(s).len() == s.len(),
            forall|k: int| 0 <= k < s.len() ==> #[trigger] node_views(s)[k] == node_view(s[k]),
            best == visible_bound(node_views(s.subrange(0, i as int))),
        decreases s.len() - i,
    {
        proof {
            lemma_node_views_prefix(s, i as int);
            assert(node_views(s.subrange(0, i + 1)).drop_last() =~= node_views(s.subrange(0, i as int)));
            assert(decreases_to!(s => s[i as int]));
            assert(decreases_to!(s[i as int] => s[i as int].children));
            assert(decreases_to!(s[i as int].children => s[i as int].children@));
        }
        let sub = match tree_height(&nodes[i].children) {
            Some(h) => h,
            None => {
                proof {
                    lemma_visible_bound_child(node_views(s), i as int);
                }
                return None;
            },
        };
        if sub == usize::MAX {
            proof {
                lemma_visible_bound_child(node_views(s), i as int);
            }
            return None;
        }
        let b = sub + 1;
        if b > best {
            best = b;
        }
        i = i + 1;
    }
    assert(s.subrange(0, s.len() as int) =~= s);
    Some(best)
}

pub proof fn lemma_visible_bound_child(s: Seq<NodeView>, i: int)
    requires
        0 <= i < s.len(),
    ensures
        1 + visible_bound(s[i].children) <= visible_bound(s),
    decreases s.len(),
{
    if i < s.len() - 1 {
        lemma_visible_bound_child(s.drop_last(), i);
    }
}


proof fn lemma_counts_push(t: Seq<NodeView>, x: NodeView)
    ensures
        count_dirs(t.push(x)) == count_dirs(t) + (if x.is_dir { 1nat } else { 0nat }),
        count_expanded_dirs(t.push(x)) == count_expanded_dirs(t) + (if x.is_dir && x.is_expanded { 1nat } else { 0nat }),
        count_with_status(t.push(x)) == count_with_status(t) + (if x.git_status is Some { 1nat } else { 0nat }),
        max_path_depth(t.push(x)) == (if path_depth(x.path) > max_path_depth(t) { path_depth(x.path) } else { max_path_depth(t) }),
{
    assert(t.push(x).drop_last() =~= t);
}

proof fn lemma_all_nodes_push(s: Seq<NodeView>, x: NodeView)
    ensures
        all_nodes(s.push(x)) == all_nodes(s) + all_in_node(x),
        all_in_node(x) == seq![x] + all_nodes(x.children),
{
    assert(s.push(x).drop_last() =~= s);
}

/// Adds the statistics of `nodes` and everything below them to `st`.
fn collect_stats(nodes: &Vec<TreeNode>, st: &mut TreeStats, Ghost(acc): Ghost<Seq<NodeView>>)
    requires
        stats_of(*old(st), acc),
        acc.len() + all_nodes(node_views(nodes@)).len() <= usize::MAX,
    ensures
        stats_of(*final(st), acc + all_nodes(node_views(nodes@))),
    decreases nodes@,
{
    let mut i: usize = 0;
    let ghost mut cur = acc;
    proof {
        assert(nodes@.subrange(0, 0) =~= Seq::<TreeNode>::empty());
        assert(acc + all_nodes(Seq::<NodeView>::empty()) =~= acc);
        lemma_all_nodes_prefix_len(node_views(nodes@), 0);
    }
    while i < nodes.len()
        invariant
            i <= nodes@.len(),
            cur == acc + all_nodes(node_views(nodes@.subrange(0, i as int))),
            stats_of(*st, cur),
            acc.len() + all_nodes(node_views(nodes@)).len() <= usize::MAX,
        decreases nodes@.len() - i,
    {
        let x = &nodes[i];
        proof {
            lemma_node_views_prefix(nodes@, i as int);
            lemma_all_nodes_push(node_views(nodes@.subrange(0, i as int)), x@);
            lemma_counts_push(cur, x@);
            lemma_count_dirs_bound(cur.push(x@));
            lemma_node_views_all(nodes@);
            lemma_all_nodes_prefix_len(node_views(nodes@), i + 1);
            assert(nodes@.subrange(0, i + 1) =~= nodes@.subrange(0, i as int).push(nodes@[i as int]));
            assert(node_views(nodes@).subrange(0, i + 1) =~= node_views(nodes@.subrange(0, i + 1))) by {
                lemma_node_views_all(nodes@.subrange(0, i + 1));
            }
        }
        let d = x.depth();
        st.total_nodes = st.total_nodes + 1;
        if x.is_dir {
            st.directories = st.directories + 1;
            if x.is_expanded {
                st.expanded_directories = st.expanded_directories + 1;
            }
        } else {
            st.files = st.files + 1;
        }
        if x.git_status.is_some() {
            st.files_with_git_status = st.files_with_git_status + 1;
        }
        if d > st.max_depth {
            st.max_depth = d;
        }
        proof {
            cur = cur.push(x@);
            assert(decreases_to!(nodes@ => nodes@[i as int]));
            assert(decreases_to!(nodes@[i as int] => nodes@[i as int].children));
            assert(decreases_to!(nodes@[i as int].children => nodes@[i as int].children@));
        }
        collect_stats(&x.children, st, Ghost(cur));
        proof {
            cur = cur + all_nodes(node_views(x.children@));
            assert(cur =~= acc + all_nodes(node_views(nodes@.subrange(0, i + 1))));
        }
        i = i + 1;
    }
    assert(nodes@.subrange(0, nodes@.len() as int) =~= nodes@);
}

proof fn lemma_all_nodes_prefix_len(s: Seq<NodeView>, k: int)
    requires
        0 <= k <= s.len(),
    ensures
        all_nodes(s.subrange(0, k)).len() <= all_nodes(s).len(),
    decreases s.len() - k,
{
    if k < s.len() {
        lemma_all_nodes_prefix_len(s, k + 1);
        lemma_all_nodes_push(s.subrange(0, k), s[k]);
        assert(s.subrange(0, k + 1) =~= s.subrange(0, k).push(s[k]));
    } else {
        assert(s.subrange(0, k) =~= s);
    }
}

/// The status recorded for the path `p`: the last entry for it.
fn lookup_status(m: &Vec<(String, char)>, p: &str) -> (r: Option<char>)
    ensures
        r == status_lookup(status_entries(m@), p@),
{
    let mut i: usize = m.len();
    proof {
        assert(status_entries(m@).subrange(0, m@.len() as int) =~= status_entries(m@));
    }
    while i > 0
        invariant
            i <= m@.len(),
            status_lookup(status_entries(m@), p@) == status_lookup(status_entries(m@).subrange(0, i as int), p@),
        decreases i,
    {
        let e = &m[i - 1];
        proof {
            let t = status_entries(m@).subrange(0, i as int);
            assert(t.last() == (e.0@, e.1));
            assert(t.drop_last() =~= status_entries(m@).subrange(0, i - 1));
        }
        if path_equal(e.0.as_str(), p) {
            return Some(e.1);
        }
        i = i - 1;
    }
    None
}

proof fn lemma_with_status_push(s: Seq<NodeView>, x: NodeView, m: Seq<(Seq<char>, char)>)
    ensures
        with_status(s.push(x), m) == with_status(s, m).push(with_status_node(x, m)),
        with_status_node(x, m) == (NodeView {
            git_status: match status_lookup(m, x.path) {
                Some(c) => Some(c),
                None => x.git_status,
            },
            children: with_status(x.children, m),
            ..x
        }),
{
    assert(s.push(x).drop_last() =~= s);
}

/// The nodes with each status from `m` applied, all the way down.
fn apply_status(nodes: Vec<TreeNode>, m: &Vec<(String, char)>) -> (r: Vec<TreeNode>)
    ensures
        node_views(r@) == with_status(node_views(nodes@), status_entries(m@)),
    decreases nodes@,
{
    let ghost all = nodes@;
    let mut src = nodes;
    let n = src.len();
    let mut rest: Vec<TreeNode> = Vec::new();
    while src.len() > 0
        invariant
            n == all.len(),
            src@.len() + rest@.len() == n,
            src@ == all.subrange(0, src@.len() as int),
            forall|j: int| 0 <= j < rest@.len() ==> #[trigger] rest@[j] == all[n - 1 - j],
            all == nodes@,
        decreases src@.len(),
    {
        let x = src.pop().unwrap();
        rest.push(x);
    }
    let mut out: Vec<TreeNode> = Vec::new();
    let mut i: usize = 0;
    proof {
        assert(all.subrange(0, 0) =~= Seq::<TreeNode>::empty());
    }
    while i < n
        invariant
            n == all.len(),
            i <= n,
            all == nodes@,
            rest@.len() == n - i,
            forall|j: int| 0 <= j < n - i ==> #[trigger] rest@[j] == all[n - 1 - j],
            node_views(out@) == with_status(node_views(all.subrange(0, i as int)), status_entries(m@)),
        decreases n - i,
    {
        let x = rest.pop().unwrap();
        proof {
            assert(x == all[i as int]);
            lemma_node_views_prefix(all, i as int);
            let pre = node_views(all.subrange(0, i as int));
            assert(pre.push(node_view(x)).drop_last() =~= pre);
            lemma_with_status_push(pre, node_view(x), status_entries(m@));
        }
        let TreeNode { name, path, is_dir, git_status, is_expanded, children, parent_path } = x;
        proof {
            assert(children == all[i as int].children);
            assert(decreases_to!(all => all[i as int]));
            assert(decreases_to!(all[i as int] => all[i as int].children));
            assert(decreases_to!(all[i as int].children => all[i as int].children@));
            assert(decreases_to!(all => children@));
        }
        let kids = apply_status(children, m);
        let st = match lookup_status(m, path.as_str()) {
            Some(c) => Some(c),
            None => git_status,
        };
        let y = TreeNode { name, path, is_dir, git_status: st, is_expanded, children: kids, parent_path };
        proof {
            lemma_node_views_push(out@, y);
        }
        out.push(y);
        i = i + 1;
    }
    assert(all.subrange(0, n as int) =~= all);
    out
}

impl FileTree {
    /// An empty tree.
    pub fn new() -> (r: Self)
        ensures
            r@.root.len() == 0,
            r@.statuses.len() == 0,
            r@.repo_root.len() == 0,
    {
        let r = FileTree { root: Vec::new(), git_status_map: Vec::new(), repo_root: String::new() };
        proof {
            lemma_node_views_len(r.root@);
        }
        r
    }

    /// Sets the Git status of paths and applies it to every node whose path
    /// has an entry; the other nodes keep theirs.
    pub fn set_git_status(&mut self, status_map: Vec<(String, char)>)
        ensures
            final(self)@.statuses == status_entries(status_map@),
            final(self)@.root == with_status(old(self)@.root, status_entries(status_map@)),
            final(self)@.repo_root == old(self)@.repo_root,
    {
        self.git_status_map = status_map;
        let mut nodes = Vec::new();
        std::mem::swap(&mut nodes, &mut self.root);
        self.root = apply_status(nodes, &self.git_status_map);
    }

    /// The first node, in pre-order, whose path is `path`.
    pub fn find_node(&self, path: &str) -> (r: Option<&TreeNode>)
        ensures
            match r {
                Some(n) => find_path(self@.root, path@) == Some(n@),
                None => find_path(self@.root, path@) is None,
            },
    {
        find_nodes(&self.root, path)
    }

    /// The first node, in pre-order, whose path is `path`, to be changed in
    /// place.
    pub fn find_node_mut(&mut self, path: &str) -> (r: Option<&mut TreeNode>)
        ensures
            match r {
                Some(n) => find_path(old(self)@.root, path@) == Some((*n)@)
                    && final(self)@ == (FileTreeView { root: replace_path(old(self)@.root, path@, (*final(n))@), ..old(self)@ }),
                None => find_path(old(self)@.root, path@) is None && final(self)@ == old(self)@,
            },
    {
        find_nodes_mut(&mut self.root, path)
    }

    fn change(&mut self, path: &str, ch: ExpansionChange) -> (r: bool)
        ensures
            final(self)@ == (FileTreeView { root: change_path(old(self)@.root, path@, ch), ..old(self)@ }),
            r == (find_path(old(self)@.root, path@) matches Some(n) && n.is_dir),
    {
        let mut nodes = Vec::new();
        std::mem::swap(&mut nodes, &mut self.root);
        let (kids, found) = change_nodes(nodes, path, ch);
        self.root = kids;
        match found {
            Some(d) => d,
            None => false,
        }
    }

    /// Expands the first node with the given path, when it is a directory;
    /// returns whether it was.
    pub fn expand_node(&mut self, path: &str) -> (r: bool)
        ensures
            final(self)@ == (FileTreeView { root: change_path(old(self)@.root, path@, ExpansionChange::Expand), ..old(self)@ }),
            r == (find_path(old(self)@.root, path@) matches Some(n) && n.is_dir),
    {
        self.change(path, ExpansionChange::Expand)
    }

    /// Collapses the first node with the given path, when it is a directory;
    /// returns whether it was.
    pub fn collapse_node(&mut self, path: &str) -> (r: bool)
        ensures
            final(self)@ == (FileTreeView { root: change_path(old(self)@.root, path@, ExpansionChange::Collapse), ..old(self)@ }),
            r == (find_path(old(self)@.root, path@) matches Some(n) && n.is_dir),
    {
        self.change(path, ExpansionChange::Collapse)
    }

    /// Flips the expansion of the first node with the given path, when it is
    /// a directory; returns whether it was.
    pub fn toggle_node(&mut self, path: &str) -> (r: bool)
        ensures
            final(self)@ == (FileTreeView { root: change_path(old(self)@.root, path@, ExpansionChange::Toggle), ..old(self)@ }),
            r == (find_path(old(self)@.root, path@) matches Some(n) && n.is_dir),
    {
        self.change(path, ExpansionChange::Toggle)
    }

    /// The nodes shown when the tree is drawn, in order.
    pub fn get_visible_nodes(&self) -> (r: Vec<&TreeNode>)
        ensures
            r@.map_values(|x: &TreeNode| x@) == visible(self@.root),
    {
        let mut out: Vec<&TreeNode> = Vec::new();
        assert(out@.map_values(|x: &TreeNode| x@) =~= Seq::<NodeView>::empty());
        collect_visible(&self.root, &mut out);
        assert(Seq::<NodeView>::empty() + visible(self@.root) =~= visible(self@.root));
        out
    }

    /// The nodes shown when the tree is drawn, each with the depth at which
    /// it is drawn.
    pub fn get_visible_nodes_with_depth(&self) -> (r: Vec<(&TreeNode, usize)>)
        requires
            visible_bound(self@.root) <= usize::MAX,
        ensures
            r@.map_values(|x: (&TreeNode, usize)| (x.0@, x.1 as nat)) == visible_depth(self@.root, 0),
    {
        let mut out: Vec<(&TreeNode, usize)> = Vec::new();
        assert(out@.map_values(|x: (&TreeNode, usize)| (x.0@, x.1 as nat)) =~= Seq::<(NodeView, nat)>::empty());
        collect_visible_depth(&self.root, &mut out, 0);
        assert(Seq::<(NodeView, nat)>::empty() + visible_depth(self@.root, 0) =~= visible_depth(self@.root, 0));
        out
    }

    /// Counts over every node of the tree.
    pub fn get_stats(&self) -> (r: TreeStats)
        requires
            all_nodes(self@.root).len() <= usize::MAX,
        ensures
            stats_of(r, all_nodes(self@.root)),
    {
        let mut st = TreeStats {
            total_nodes: 0,
            files: 0,
            directories: 0,
            expanded_directories: 0,
            files_with_git_status: 0,
            max_depth: 0,
        };
        collect_stats(&self.root, &mut st, Ghost(Seq::empty()));
        assert(Seq::<NodeView>::empty() + all_nodes(self@.root) =~= all_nodes(self@.root));
        st
    }

    /// A copy of the tree.
    pub fn duplicate(&self) -> (r: Self)
        ensures
            r@ == self@,
    {
        let mut roots: Vec<TreeNode> = Vec::new();
        let mut i: usize = 0;
        while i < self.root.len()
            invariant
                i <= self.root@.len(),
                node_views(roots@) == node_views(self.root@.subrange(0, i as int)),
            decreases self.root@.len() - i,
        {
            let c = self.root[i].duplicate();
            proof {
                lemma_node_views_prefix(self.root@, i as int);
                lemma_node_views_push(roots@, c);
            }
            roots.push(c);
            i = i + 1;
        }
        assert(self.root@.subrange(0, self.root@.len() as int) =~= self.root@);
        let mut st: Vec<(String, char)> = Vec::new();
        let mut j: usize = 0;
        while j < self.git_status_map.len()
            invariant
                j <= self.git_status_map@.len(),
                st@.len() == j,
                status_entries(st@) == status_entries(self.git_status_map@.subrange(0, j as int)),
            decreases self.git_status_map@.len() - j,
        {
            let e = &self.git_status_map[j];
            let k = e.0.clone();
            let ghost prev = st@;
            st.push((k, e.1));
            proof {
                assert(st@ == prev.push((k, e.1)));
                assert(k == e.0);
                assert(st@[j as int].0 == self.git_status_map@[j as int].0);
                assert(st@[j as int].1 == self.git_status_map@[j as int].1);
                assert forall|q: int| 0 <= q < j + 1 implies #[trigger] status_entries(st@)[q] == status_entries(self.git_status_map@.subrange(0, j + 1))[q] by {
                    if q < j {
                        assert(status_entries(st@)[q] == status_entries(prev)[q]);
                        assert(status_entries(prev)[q] == status_entries(self.git_status_map@.subrange(0, j as int))[q]);
                    }
                }
                assert(status_entries(st@) =~= status_entries(self.git_status_map@.subrange(0, j + 1)));
            }
            j = j + 1;
        }
        assert(self.git_status_map@.subrange(0, self.git_status_map@.len() as int) =~= self.git_status_map@);
        FileTree { root: roots, git_status_map: st, repo_root: self.repo_root.clone() }
    }
}

} // verus!
