//! File search in the navigator: fuzzy matching of file names, and the
//! directory structure that holds the matches.

use vstd::prelude::*;
use fuzzy_matcher::FuzzyMatcher;
use crate::app::text_views;
use crate::listing::{collect_all, insert_text};
use crate::text::chars_of;
use crate::tree::{all_nodes, find_path, node_views, path_parent, parent_of, FileTree, NodeView, TreeNode};

verus! {

/// What `Path::file_name` returns for a path, as text.
pub uninterp spec fn file_name_of(p: Seq<char>) -> Option<Seq<char>>;

/// What `SkimMatcherV2::default().fuzzy_match(choice, pattern)` returns.
pub uninterp spec fn skim_score(choice: Seq<char>, pattern: Seq<char>) -> Option<i64>;

/// What `Path`'s `<` says of two paths, which compares them component by component.
pub uninterp spec fn path_lt(a: Seq<char>, b: Seq<char>) -> bool;

/// Calls `Path::file_name` on the path written `p`: its final component, if
/// there is one, turned back into text with `to_string_lossy`. The result is
/// named, not stated.
#[verifier::external_body]
pub(crate) fn path_file_name(p: &str) -> (r: Option<String>)
    ensures
        match r {
            Some(n) => file_name_of(p@) == Some(n@),
            None => file_name_of(p@) is None,
        },
{
    std::path::Path::new(p).file_name().map(|n| n.to_string_lossy().into_owned())
}

/// Calls `fuzzy_matcher`'s `SkimMatcherV2::default().fuzzy_match`: the score
/// of `choice` against `pattern`, or `None` when it does not match. The
/// scoring is named, not stated.
#[verifier::external_body]
fn fuzzy_score(choice: &str, pattern: &str) -> (r: Option<i64>)
    ensures
        r == skim_score(choice@, pattern@),
{
    fuzzy_matcher::skim::SkimMatcherV2::default().fuzzy_match(choice, pattern)
}

/// Compares two paths with `Path`'s `<`; the order is named, not stated.
#[verifier::external_body]
pub(crate) fn path_less(a: &str, b: &str) -> (r: bool)
    ensures
        r == path_lt(a@, b@),
{
    std::path::Path::new(a) < std::path::Path::new(b)
}

/// The paths of the files (not directories) among `a`, in order.
pub open spec fn file_paths(a: Seq<NodeView>) -> Seq<Seq<char>>
    decreases a.len(),
{
    if a.len() == 0 {
        Seq::empty()
    } else if a.last().is_dir {
        file_paths(a.drop_last())
    } else {
        file_paths(a.drop_last()).push(a.last().path)
    }
}

/// The paths whose file name matches the query `q`, each with its score, in order.
pub open spec fn scored(ps: Seq<Seq<char>>, q: Seq<char>) -> Seq<(Seq<char>, i64)>
    decreases ps.len(),
{
    if ps.len() == 0 {
        Seq::empty()
    } else {
        let rest = scored(ps.drop_last(), q);
        match file_name_of(ps.last()) {
            Some(n) => match skim_score(n, q) {
                Some(sc) => rest.push((ps.last(), sc)),
                None => rest,
            },
            None => rest,
        }
    }
}

/// Every path that the search scores is one of the paths searched, and its
/// file name (not the whole path) fuzzy-matches the query with that score;
/// and every searched path whose file name matches is scored.
pub proof fn law_scored_by_file_name(ps: Seq<Seq<char>>, q: Seq<char>)
    ensures
        forall|i: int| 0 <= i < scored(ps, q).len() ==> {
            let (p, sc) = #[trigger] scored(ps, q)[i];
            &&& ps.contains(p)
            &&& file_name_of(p) matches Some(n) && skim_score(n, q) == Some(sc)
        },
        forall|j: int| 0 <= j < ps.len() ==> match file_name_of(#[trigger] ps[j]) {
            Some(n) => match skim_score(n, q) {
                Some(sc) => scored(ps, q).contains((ps[j], sc)),
                None => true,
            },
            None => true,
        },
    decreases ps.len(),
{
    if ps.len() > 0 {
        let d = ps.drop_last();
        law_scored_by_file_name(d, q);
        let rest = scored(d, q);
        let r = scored(ps, q);
        assert forall|i: int| 0 <= i < r.len() implies {
            let (p, sc) = #[trigger] r[i];
            &&& ps.contains(p)
            &&& file_name_of(p) matches Some(n) && skim_score(n, q) == Some(sc)
        } by {
            if i < rest.len() {
                assert(r[i] == rest[i]);
                let (p, sc) = rest[i];
                assert(d.contains(p));
                let k = choose|k: int| 0 <= k < d.len() && d[k] == p;
                assert(ps[k] == p);
            } else {
                assert(ps[ps.len() - 1] == ps.last());
            }
        }
        assert forall|j: int| 0 <= j < ps.len() implies match file_name_of(#[trigger] ps[j]) {
            Some(n) => match skim_score(n, q) {
                Some(sc) => r.contains((ps[j], sc)),
                None => true,
            },
            None => true,
        } by {
            match file_name_of(ps[j]) {
                Some(n) => match skim_score(n, q) {
                    Some(sc) => {
                        if j < d.len() {
                            assert(d[j] == ps[j]);
                            assert(rest.contains((d[j], sc)));
                            let k = choose|k: int| 0 <= k < rest.len() && rest[k] == (d[j], sc);
                            assert(r[k] == rest[k]);
                            assert(0 <= k < r.len());
                            assert(r.contains((ps[j], sc)));
                        } else {
                            assert(ps[j] == ps.last());
                            assert(r == rest.push((ps.last(), sc)));
                            assert(r[r.len() - 1] == (ps[j], sc));
                            assert(r.contains((ps[j], sc)));
                        }
                    },
                    None => {},
                },
                None => {},
            }
        }
    }
}

/// Where `x` goes among `s` when inserted after every entry whose score is
/// not lower than its own.
pub open spec fn score_pos(s: Seq<(Seq<char>, i64)>, x: (Seq<char>, i64)) -> nat
    decreases s.len(),
{
    if s.len() == 0 {
        0
    } else if x.1 > s[0].1 {
        0
    } else {
        1 + score_pos(s.drop_first(), x)
    }
}

/// The stable sort of `s` by score, highest first.
pub open spec fn by_score(s: Seq<(Seq<char>, i64)>) -> Seq<(Seq<char>, i64)>
    decreases s.len(),
{
    if s.len() == 0 {
        s
    } else {
        let t = by_score(s.drop_last());
        t.insert(score_pos(t, s.last()) as int, s.last())
    }
}

/// The files found for the query `q` in the tree `root`: every file when the
/// query is empty, else the files whose name matches, best score first.
pub open spec fn found_files(root: Seq<NodeView>, q: Seq<char>) -> Seq<Seq<char>> {
    let files = file_paths(all_nodes(root));
    if q.len() == 0 {
        files
    } else {
        by_score(scored(files, q)).map_values(|e: (Seq<char>, i64)| e.0)
    }
}

/// The directories above `p`, nearest first, following `Path::parent` for at
/// most `k` steps and stopping at the empty path or `.`.
pub open spec fn ancestors_k(p: Seq<char>, k: nat) -> Seq<Seq<char>>
    decreases k,
{
    if k == 0 {
        Seq::empty()
    } else {
        match parent_of(p) {
            Some(q) => if q.len() == 0 || q == seq!['.'] {
                Seq::empty()
            } else {
                seq![q] + ancestors_k(q, (k - 1) as nat)
            },
            None => Seq::empty(),
        }
    }
}

/// The directories above `p`.
pub open spec fn ancestors(p: Seq<char>) -> Seq<Seq<char>> {
    ancestors_k(p, p.len() + 1)
}

/// Each file followed by the directories above it.
pub open spec fn with_ancestors(fs: Seq<Seq<char>>) -> Seq<Seq<char>>
    decreases fs.len(),
{
    if fs.len() == 0 {
        Seq::empty()
    } else {
        with_ancestors(fs.drop_last()) + seq![fs.last()] + ancestors(fs.last())
    }
}

/// `s` with every repeat of an earlier entry left out.
pub open spec fn dedup(s: Seq<Seq<char>>) -> Seq<Seq<char>>
    decreases s.len(),
{
    if s.len() == 0 {
        s
    } else if dedup(s.drop_last()).contains(s.last()) {
        dedup(s.drop_last())
    } else {
        dedup(s.drop_last()).push(s.last())
    }
}

/// Whether the tree has a directory at path `p`.
pub open spec fn dir_at(root: Seq<NodeView>, p: Seq<char>) -> bool {
    find_path(root, p) matches Some(n) && n.is_dir
}

/// Whether `a` comes before `b` among search results: directories first,
/// then by path.
pub open spec fn path_before(root: Seq<NodeView>, a: Seq<char>, b: Seq<char>) -> bool {
    (dir_at(root, a) && !dir_at(root, b)) || (dir_at(root, a) == dir_at(root, b) && path_lt(a, b))
}

/// Where `x` goes among `s` when inserted after every path it does not precede.
pub open spec fn path_pos(root: Seq<NodeView>, s: Seq<Seq<char>>, x: Seq<char>) -> nat
    decreases s.len(),
{
    if s.len() == 0 {
        0
    } else if path_before(root, x, s[0]) {
        0
    } else {
        1 + path_pos(root, s.drop_first(), x)
    }
}

/// The stable sort of `s` by `path_before`.
pub open spec fn sorted_paths(root: Seq<NodeView>, s: Seq<Seq<char>>) -> Seq<Seq<char>>
    decreases s.len(),
{
    if s.len() == 0 {
        s
    } else {
        let t = sorted_paths(root, s.drop_last());
        t.insert(path_pos(root, t, s.last()) as int, s.last())
    }
}

/// The search results for a query: the matching files and every directory
/// above them, each once, directories first.
pub open spec fn search_structure(root: Seq<NodeView>, q: Seq<char>) -> Seq<Seq<char>> {
    sorted_paths(root, dedup(with_ancestors(found_files(root, q))))
}

/// The values of a list of scored paths.
pub open spec fn pair_views(v: Seq<(String, i64)>) -> Seq<(Seq<char>, i64)> {
    v.map_values(|e: (String, i64)| (e.0@, e.1))
}

/// The paths of every file in the tree `root`, in pre-order.
fn all_file_paths(root: &Vec<TreeNode>) -> (r: Vec<String>)
    ensures
        text_views(r@) == file_paths(all_nodes(node_views(root@))),
{
    let mut all: Vec<&TreeNode> = Vec::new();
    collect_all(root, &mut all);
    let ghost flat = all_nodes(node_views(root@));
    assert(all@.map_values(|x: &TreeNode| x@) =~= flat);
    let mut out: Vec<String> = Vec::new();
    let mut i: usize = 0;
    assert(flat.subrange(0, 0) =~= Seq::<NodeView>::empty());
    assert(text_views(out@) =~= Seq::<Seq<char>>::empty());
    while i < all.len()
        invariant
            i <= all@.len(),
            all@.len() == flat.len(),
            forall|k: int| 0 <= k < all@.len() ==> #[trigger] all@[k]@ == flat[k],
            text_views(out@) == file_paths(flat.subrange(0, i as int)),
        decreases all@.len() - i,
    {
        let x = all[i];
        assert(x@ == flat[i as int]);
        assert(flat.subrange(0, i + 1).drop_last() =~= flat.subrange(0, i as int));
        if !x.is_dir {
            let ghost prev = out@;
            out.push(x.path.clone());
            assert(text_views(out@) =~= text_views(prev).push(x.path@));
        }
        i = i + 1;
    }
    assert(flat.subrange(0, flat.len() as int) =~= flat);
    out
}

/// The paths among `files` whose file name matches `q`, with their scores.
fn scored_matches(files: &Vec<String>, q: &str) -> (r: Vec<(String, i64)>)
    ensures
        pair_views(r@) == scored(text_views(files@), q@),
{
    let ghost fs = text_views(files@);
    let mut out: Vec<(String, i64)> = Vec::new();
    let mut i: usize = 0;
    assert(fs.subrange(0, 0) =~= Seq::<Seq<char>>::empty());
    assert(pair_views(out@) =~= Seq::<(Seq<char>, i64)>::empty());
    while i < files.len()
        invariant
            i <= files@.len(),
            fs == text_views(files@),
            pair_views(out@) == scored(fs.subrange(0, i as int), q@),
        decreases files@.len() - i,
    {
        let f = &files[i];
        assert(fs[i as int] == f@);
        assert(fs.subrange(0, i + 1).drop_last() =~= fs.subrange(0, i as int));
        assert(fs.subrange(0, i + 1).last() == f@);
        match path_file_name(f.as_str()) {
            Some(n) => {
                match fuzzy_score(n.as_str(), q) {
                    Some(sc) => {
                        let ghost prev = out@;
                        out.push((f.clone(), sc));
                        assert(pair_views(out@) =~= pair_views(prev).push((f@, sc)));
                    },
                    None => {},
                }
            },
            None => {},
        }
        i = i + 1;
    }
    assert(fs.subrange(0, fs.len() as int) =~= fs);
    out
}

proof fn lemma_score_pos_is(s: Seq<(Seq<char>, i64)>, x: (Seq<char>, i64), k: int)
    requires
        0 <= k <= s.len(),
        forall|j: int| 0 <= j < k ==> !(x.1 > #[trigger] s[j].1),
        k == s.len() || x.1 > s[k].1,
    ensures
        score_pos(s, x) == k,
    decreases k,
{
    if k > 0 {
        assert forall|j: int| 0 <= j < k - 1 implies !(x.1 > #[trigger] s.drop_first()[j].1) by {
            assert(s.drop_first()[j] == s[j + 1]);
        }
        lemma_score_pos_is(s.drop_first(), x, k - 1);
    }
}

/// Inserts `x` after every entry whose score is not lower.
fn insert_by_score(v: &mut Vec<(String, i64)>, x: (String, i64))
    ensures
        pair_views(final(v)@) == pair_views(old(v)@).insert(score_pos(pair_views(old(v)@), (x.0@, x.1)) as int, (x.0@, x.1)),
{
    let ghost vs = pair_views(v@);
    let mut k: usize = 0;
    while k < v.len() && !(x.1 > v[k].1)
        invariant
            v@ == old(v)@,
            vs == pair_views(v@),
            k <= v@.len(),
            forall|j: int| 0 <= j < k ==> !(x.1 > #[trigger] vs[j].1),
        decreases v@.len() - k,
    {
        k = k + 1;
    }
    proof {
        lemma_score_pos_is(vs, (x.0@, x.1), k as int);
    }
    let ghost xv = (x.0@, x.1);
    v.insert(k, x);
    assert(pair_views(v@) =~= vs.insert(k as int, xv));
}

/// The entries of `v`, highest score first, equal scores keeping their order.
fn sort_by_score(v: &Vec<(String, i64)>) -> (r: Vec<(String, i64)>)
    ensures
        pair_views(r@) == by_score(pair_views(v@)),
{
    let ghost all = pair_views(v@);
    let mut out: Vec<(String, i64)> = Vec::new();
    let mut i: usize = 0;
    assert(all.subrange(0, 0) =~= Seq::<(Seq<char>, i64)>::empty());
    assert(pair_views(out@) =~= Seq::<(Seq<char>, i64)>::empty());
    while i < v.len()
        invariant
            i <= v@.len(),
            all == pair_views(v@),
            pair_views(out@) == by_score(all.subrange(0, i as int)),
        decreases v@.len() - i,
    {
        let x = (v[i].0.clone(), v[i].1);
        assert(all[i as int] == (x.0@, x.1));
        assert(all.subrange(0, i + 1).drop_last() =~= all.subrange(0, i as int));
        insert_by_score(&mut out, x);
        i = i + 1;
    }
    assert(all.subrange(0, all.len() as int) =~= all);
    out
}

/// The files found for the query `q`: every file when it is empty, else the
/// files whose name matches it, best score first.
pub fn search_files(tree: &FileTree, q: &str) -> (r: Vec<String>)
    ensures
        text_views(r@) == found_files(tree@.root, q@),
{
    let files = all_file_paths(&tree.root);
    let qc = chars_of(q);
    if qc.len() == 0 {
        return files;
    }
    let matches = scored_matches(&files, q);
    let sorted = sort_by_score(&matches);
    let mut out: Vec<String> = Vec::new();
    let mut i: usize = 0;
    let ghost sv = pair_views(sorted@);
    while i < sorted.len()
        invariant
            i <= sorted@.len(),
            sv == pair_views(sorted@),
            text_views(out@) == sv.subrange(0, i as int).map_values(|e: (Seq<char>, i64)| e.0),
        decreases sorted@.len() - i,
    {
        let ghost prev = out@;
        out.push(sorted[i].0.clone());
        assert(sv[i as int].0 == sorted@[i as int].0@);
        assert(text_views(out@) =~= text_views(prev).push(sorted@[i as int].0@));
        assert(sv.subrange(0, i + 1).map_values(|e: (Seq<char>, i64)| e.0) =~= sv.subrange(0, i as int).map_values(|e: (Seq<char>, i64)| e.0).push(sv[i as int].0));
        i = i + 1;
    }
    assert(sv.subrange(0, sv.len() as int) =~= sv);
    out
}

/// The directories above the path `p`, nearest first.
fn ancestors_of(p: &String) -> (r: Vec<String>)
    ensures
        text_views(r@) == ancestors(p@),
{
    let ghost k0 = p@.len() + 1;
    let mut out: Vec<String> = Vec::new();
    let mut cur = p.clone();
    let ghost mut steps: nat = 0;
    let mut done = false;
    assert(text_views(out@) + ancestors_k(cur@, k0) =~= ancestors_k(p@, k0));
    while !done
        invariant
            k0 == p@.len() + 1,
            cur@.len() + steps <= p@.len(),
            done ==> text_views(out@) == ancestors_k(p@, k0),
            !done ==> text_views(out@) + ancestors_k(cur@, (k0 - steps) as nat) == ancestors_k(p@, k0),
        decreases cur@.len() + (if done { 0int } else { 1int }),
    {
        let ghost k = (k0 - steps) as nat;
        assert(k > 0);
        match path_parent(cur.as_str()) {
            Some(q) => {
                let qc = chars_of(q.as_str());
                let is_dot = qc.len() == 1 && qc[0] == '.';
                assert(is_dot == (q@ == seq!['.'])) by {
                    if qc@.len() == 1 && qc@[0] == '.' {
                        assert(q@ =~= seq!['.']);
                    }
                }
                if qc.len() == 0 || is_dot {
                    assert(ancestors_k(cur@, k) =~= Seq::<Seq<char>>::empty());
                    assert(text_views(out@) + Seq::<Seq<char>>::empty() =~= text_views(out@));
                    done = true;
                } else {
                    let ghost prev = out@;
                    out.push(q.clone());
                    proof {
                        assert(text_views(out@) =~= text_views(prev).push(q@));
                        assert(ancestors_k(cur@, k) == seq![q@] + ancestors_k(q@, (k - 1) as nat));
                        assert(text_views(out@) + ancestors_k(q@, (k - 1) as nat) =~= text_views(prev) + ancestors_k(cur@, k));
                    }
                    cur = q;
                    proof {
                        steps = steps + 1;
                    }
                }
            },
            None => {
                assert(ancestors_k(cur@, k) =~= Seq::<Seq<char>>::empty());
                assert(text_views(out@) + Seq::<Seq<char>>::empty() =~= text_views(out@));
                done = true;
            },
        }
    }
    out
}

proof fn lemma_dedup_push(s: Seq<Seq<char>>, x: Seq<char>)
    ensures
        dedup(s.push(x)) == (if dedup(s).contains(x) { dedup(s) } else { dedup(s).push(x) }),
{
    assert(s.push(x).drop_last() =~= s);
}

/// Adds `p` to `v` unless it holds it already, following `dedup`.
fn add_path(v: &mut Vec<String>, p: &String, Ghost(s): Ghost<Seq<Seq<char>>>)
    requires
        text_views(old(v)@) == dedup(s),
    ensures
        text_views(final(v)@) == dedup(s.push(p@)),
{
    proof {
        lemma_dedup_push(s, p@);
    }
    insert_text(v, p);
}

/// Each file of `files` followed by the directories above it, each path once.
fn tree_path_list(files: &Vec<String>) -> (r: Vec<String>)
    ensures
        text_views(r@) == dedup(with_ancestors(text_views(files@))),
{
    let ghost fs = text_views(files@);
    let mut out: Vec<String> = Vec::new();
    let mut i: usize = 0;
    assert(fs.subrange(0, 0) =~= Seq::<Seq<char>>::empty());
    assert(text_views(out@) =~= Seq::<Seq<char>>::empty());
    while i < files.len()
        invariant
            i <= files@.len(),
            fs == text_views(files@),
            text_views(out@) == dedup(with_ancestors(fs.subrange(0, i as int))),
        decreases files@.len() - i,
    {
        let f = &files[i];
        assert(fs[i as int] == f@);
        let ghost pre = with_ancestors(fs.subrange(0, i as int));
        add_path(&mut out, f, Ghost(pre));
        let anc = ancestors_of(f);
        let mut j: usize = 0;
        let ghost av = text_views(anc@);
        assert((pre + seq![f@] + av.subrange(0, 0)) =~= pre.push(f@));
        while j < anc.len()
            invariant
                j <= anc@.len(),
                av == text_views(anc@),
                text_views(out@) == dedup(pre + seq![f@] + av.subrange(0, j as int)),
            decreases anc@.len() - j,
        {
            let a = &anc[j];
            assert(av[j as int] == a@);
            add_path(&mut out, a, Ghost(pre + seq![f@] + av.subrange(0, j as int)));
            assert((pre + seq![f@] + av.subrange(0, j as int)).push(a@) =~= pre + seq![f@] + av.subrange(0, j + 1));
            j = j + 1;
        }
        proof {
            assert(av.subrange(0, av.len() as int) =~= av);
            assert(fs.subrange(0, i + 1).drop_last() =~= fs.subrange(0, i as int));
            assert(fs.subrange(0, i + 1).last() == f@);
            assert(av == ancestors(f@));
        }
        i = i + 1;
    }
    assert(fs.subrange(0, fs.len() as int) =~= fs);
    out
}

/// Whether the tree has a directory at path `p`.
pub fn is_dir_at(tree: &FileTree, p: &str) -> (r: bool)
    ensures
        r == dir_at(tree@.root, p@),
{
    match tree.find_node(p) {
        Some(n) => n.is_dir,
        None => false,
    }
}

/// Whether `a` comes before `b` among search results.
fn comes_first(tree: &FileTree, a: &str, b: &str) -> (r: bool)
    ensures
        r == path_before(tree@.root, a@, b@),
{
    let da = is_dir_at(tree, a);
    let db = is_dir_at(tree, b);
    if da && !db {
        true
    } else if da != db {
        false
    } else {
        path_less(a, b)
    }
}

proof fn lemma_path_pos_is(root: Seq<NodeView>, s: Seq<Seq<char>>, x: Seq<char>, k: int)
    requires
        0 <= k <= s.len(),
        forall|j: int| 0 <= j < k ==> !path_before(root, x, #[trigger] s[j]),
        k == s.len() || path_before(root, x, s[k]),
    ensures
        path_pos(root, s, x) == k,
    decreases k,
{
    if k > 0 {
        assert forall|j: int| 0 <= j < k - 1 implies !path_before(root, x, #[trigger] s.drop_first()[j]) by {
            assert(s.drop_first()[j] == s[j + 1]);
        }
        lemma_path_pos_is(root, s.drop_first(), x, k - 1);
    }
}

/// Inserts `x` into `v` after every path that it does not precede.
fn insert_path(tree: &FileTree, v: &mut Vec<String>, x: String)
    ensures
        text_views(final(v)@) == text_views(old(v)@).insert(path_pos(tree@.root, text_views(old(v)@), x@) as int, x@),
{
    let ghost vs = text_views(v@);
    let mut k: usize = 0;
    while k < v.len() && !comes_first(tree, x.as_str(), v[k].as_str())
        invariant
            v@ == old(v)@,
            vs == text_views(v@),
            k <= v@.len(),
            forall|j: int| 0 <= j < k ==> !path_before(tree@.root, x@, #[trigger] vs[j]),
        decreases v@.len() - k,
    {
        k = k + 1;
    }
    proof {
        lemma_path_pos_is(tree@.root, vs, x@, k as int);
    }
    let ghost xv = x@;
    v.insert(k, x);
    assert(text_views(v@) =~= vs.insert(k as int, xv));
}

/// The paths of `v` in search-result order, equal ones keeping their order.
fn sort_paths(tree: &FileTree, v: &Vec<String>) -> (r: Vec<String>)
    ensures
        text_views(r@) == sorted_paths(tree@.root, text_views(v@)),
{
    let ghost all = text_views(v@);
    let mut out: Vec<String> = Vec::new();
    let mut i: usize = 0;
    assert(all.subrange(0, 0) =~= Seq::<Seq<char>>::empty());
    assert(text_views(out@) =~= Seq::<Seq<char>>::empty());
    while i < v.len()
        invariant
            i <= v@.len(),
            all == text_views(v@),
            text_views(out@) == sorted_paths(tree@.root, all.subrange(0, i as int)),
        decreases v@.len() - i,
    {
        let x = v[i].clone();
        assert(all[i as int] == x@);
        assert(all.subrange(0, i + 1).drop_last() =~= all.subrange(0, i as int));
        insert_path(tree, &mut out, x);
        i = i + 1;
    }
    assert(all.subrange(0, all.len() as int) =~= all);
    out
}

/// The search results for the query `q`: the matching files and every
/// directory above them, each once, directories first, then by path.
pub fn build_search_tree_structure(tree: &FileTree, q: &str) -> (r: Vec<String>)
    ensures
        text_views(r@) == search_structure(tree@.root, q@),
{
    let matching = search_files(tree, q);
    if matching.len() == 0 {
        proof {
            let fs = text_views(matching@);
            assert(fs =~= Seq::<Seq<char>>::empty());
            assert(with_ancestors(fs) =~= Seq::<Seq<char>>::empty());
            assert(dedup(with_ancestors(fs)) =~= Seq::<Seq<char>>::empty());
        }
        return Vec::new();
    }
    let paths = tree_path_list(&matching);
    sort_paths(tree, &paths)
}

} // verus!
