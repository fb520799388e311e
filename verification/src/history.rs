//! The decisions taken while a file's history is read from the repository:
//! which path is looked up, whether a commit changed the file, what a
//! commit's author time says, and which of the commits that changed the file
//! make up a requested chunk of the history.

use vstd::prelude::*;
use crate::app::{text_views, CommitInfo, CommitView};
use crate::line_mapping::text_lines;
use crate::text::{
    byte_prefix, byte_prefix_chars, chars_of, has_prefix, is_whitespace, is_ws, parse_u64,
    parse_u64_spec, slice_chars, starts_with, string_of, trim_start, lines_of,
};

verus! {

/// The path as it is looked up in a commit's tree: without a leading `./`.
pub open spec fn normalized(p: Seq<char>) -> Seq<char> {
    if has_prefix(p, "./"@) { p.skip(2) } else { p }
}

/// The path `p` as it is looked up in a commit's tree.
pub fn normalized_path(p: &str) -> (r: String)
    ensures
        r@ == normalized(p@),
{
    let cs = chars_of(p);
    proof {
        reveal_strlit("./");
    }
    if starts_with(&cs, "./") {
        string_of(&slice_chars(&cs, 2, cs.len()))
    } else {
        string_of(&cs)
    }
}

/// Whether a commit changed a file, from the file's object id in the
/// commit's tree (`None` when the file is not there) and in each parent's
/// tree: a root commit changed it when it has the file; another commit when
/// some parent had it different, had it where the commit has not, or had it
/// not where the commit has it.
pub open spec fn changed_in(current: Option<Seq<char>>, parents: Seq<Option<Seq<char>>>) -> bool {
    if parents.len() == 0 {
        current is Some
    } else {
        exists|i: int| 0 <= i < parents.len() && #[trigger] parents[i] != current
    }
}

/// The values of a list of optional texts.
pub open spec fn opt_views(v: Seq<Option<String>>) -> Seq<Option<Seq<char>>> {
    v.map_values(|o: Option<String>| match o {
        Some(s) => Some(s@),
        None => None,
    })
}

fn same_opt_text(a: &Option<String>, b: &Option<String>) -> (r: bool)
    ensures
        r == (opt_views(seq![*a])[0] == opt_views(seq![*b])[0]),
{
    match (a, b) {
        (Some(x), Some(y)) => {
            let xs = chars_of(x.as_str());
            let ys = chars_of(y.as_str());
            crate::text::chars_eq(&xs, &ys)
        },
        (None, None) => true,
        _ => false,
    }
}

/// Whether a commit changed the file, from the file's object id in the
/// commit's tree and in its parents' trees.
pub fn file_changed(current: &Option<String>, parents: &Vec<Option<String>>) -> (r: bool)
    ensures
        r == changed_in(opt_views(seq![*current])[0], opt_views(parents@)),
{
    let ghost cur = opt_views(seq![*current])[0];
    let ghost pv = opt_views(parents@);
    if parents.len() == 0 {
        return current.is_some();
    }
    let mut i: usize = 0;
    while i < parents.len()
        invariant
            0 < parents@.len(),
            i <= parents@.len(),
            cur == opt_views(seq![*current])[0],
            pv == opt_views(parents@),
            forall|j: int| 0 <= j < i ==> pv[j] == cur,
        decreases parents@.len() - i,
    {
        let same = same_opt_text(&parents[i], current);
        proof {
            assert(opt_views(seq![parents@[i as int]])[0] == pv[i as int]);
        }
        if !same {
            assert(pv[i as int] != cur);
            return true;
        }
        i = i + 1;
    }
    assert(!changed_in(cur, pv));
    false
}

/// The first word of `s`: its characters after the leading white space, up
/// to the next white space.
pub open spec fn leading_word(t: Seq<char>) -> Seq<char>
    decreases t.len(),
{
    if t.len() == 0 || is_ws(t[0]) {
        Seq::empty()
    } else {
        seq![t[0]] + leading_word(t.drop_first())
    }
}

/// The first of the white-space separated words of `s`, as
/// `split_whitespace().next()` gives it.
pub open spec fn first_word(s: Seq<char>) -> Option<Seq<char>> {
    if trim_start(s).len() == 0 { None } else { Some(leading_word(trim_start(s))) }
}

/// What `str::parse::<i64>` gives: an optional sign, then one or more
/// decimal digits whose value, signed, fits in `i64`.
pub open spec fn parse_i64_spec(s: Seq<char>) -> Option<i64> {
    if s.len() > 0 && s[0] == '-' {
        let body = s.drop_first();
        if body.len() > 0 && body[0] == '+' {
            None
        } else {
            match parse_u64_spec(body) {
                Some(v) => if v <= 0x8000_0000_0000_0000u64 { Some((0 - v) as i64) } else { None },
                None => None,
            }
        }
    } else {
        match parse_u64_spec(s) {
            Some(v) => if v <= 0x7fff_ffff_ffff_ffffu64 { Some(v as i64) } else { None },
            None => None,
        }
    }
}

/// Parses an `i64` as `str::parse` does.
pub fn parse_i64(s: &[char]) -> (r: Option<i64>)
    ensures
        r == parse_i64_spec(s@),
{
    if s.len() > 0 && s[0] == '-' {
        let body = slice_chars(s, 1, s.len());
        assert(body@ =~= s@.drop_first());
        if body.len() > 0 && body[0] == '+' {
            return None;
        }
        match parse_u64(&body) {
            Some(v) => if v <= 0x8000_0000_0000_0000u64 {
                if v == 0x8000_0000_0000_0000u64 {
                    Some(i64::MIN)
                } else {
                    Some(0i64 - (v as i64))
                }
            } else {
                None
            },
            None => None,
        }
    } else {
        match parse_u64(s) {
            Some(v) => if v <= 0x7fff_ffff_ffff_ffffu64 { Some(v as i64) } else { None },
            None => None,
        }
    }
}

/// The seconds since the epoch that a commit's raw author time gives: its
/// first word as a number, 0 when there is none or it is no number.
pub open spec fn timestamp_of(time: Seq<char>) -> i64 {
    match first_word(time) {
        Some(w) => match parse_i64_spec(w) {
            Some(v) => v,
            None => 0,
        },
        None => 0,
    }
}

proof fn lemma_leading_word_split(t: Seq<char>, i: int)
    requires
        0 <= i <= t.len(),
        forall|j: int| 0 <= j < i ==> !is_ws(#[trigger] t[j]),
    ensures
        leading_word(t) == t.subrange(0, i) + leading_word(t.subrange(i, t.len() as int)),
    decreases i,
{
    if i > 0 {
        let d = t.drop_first();
        assert forall|j: int| 0 <= j < i - 1 implies !is_ws(#[trigger] d[j]) by {
            assert(d[j] == t[j + 1]);
        }
        lemma_leading_word_split(d, i - 1);
        assert(d.subrange(i - 1, d.len() as int) =~= t.subrange(i, t.len() as int));
        assert(seq![t[0]] + d.subrange(0, i - 1) =~= t.subrange(0, i));
    } else {
        assert(t.subrange(0, t.len() as int) =~= t);
        assert(t.subrange(0, 0) + leading_word(t) =~= leading_word(t));
    }
}

proof fn lemma_trim_start_at(s: Seq<char>, i: int)
    requires
        0 <= i <= s.len(),
        forall|j: int| 0 <= j < i ==> is_ws(#[trigger] s[j]),
    ensures
        trim_start(s) == trim_start(s.subrange(i, s.len() as int)),
    decreases i,
{
    if i > 0 {
        let d = s.drop_first();
        assert forall|j: int| 0 <= j < i - 1 implies is_ws(#[trigger] d[j]) by {
            assert(d[j] == s[j + 1]);
        }
        lemma_trim_start_at(d, i - 1);
        assert(d.subrange(i - 1, d.len() as int) =~= s.subrange(i, s.len() as int));
    } else {
        assert(s.subrange(0, s.len() as int) =~= s);
    }
}

/// The first white-space separated word of `s`, if any.
pub fn first_word_of(s: &[char]) -> (r: Option<Vec<char>>)
    ensures
        match r {
            Some(w) => first_word(s@) == Some(w@),
            None => first_word(s@) is None,
        },
{
    let mut i: usize = 0;
    while i < s.len() && is_whitespace(s[i])
        invariant
            i <= s@.len(),
            forall|j: int| 0 <= j < i ==> is_ws(#[trigger] s@[j]),
        decreases s@.len() - i,
    {
        i = i + 1;
    }
    proof {
        lemma_trim_start_at(s@, i as int);
    }
    let ghost rest = s@.subrange(i as int, s@.len() as int);
    if i == s.len() {
        assert(rest.len() == 0);
        return None;
    }
    assert(!is_ws(rest[0]));
    assert(trim_start(rest) == rest);
    let mut k: usize = i;
    while k < s.len() && !is_whitespace(s[k])
        invariant
            i <= k <= s@.len(),
            rest == s@.subrange(i as int, s@.len() as int),
            forall|j: int| i <= j < k ==> !is_ws(#[trigger] s@[j]),
        decreases s@.len() - k,
    {
        k = k + 1;
    }
    proof {
        assert forall|j: int| 0 <= j < k - i implies !is_ws(#[trigger] rest[j]) by {
            assert(rest[j] == s@[i + j]);
        }
        lemma_leading_word_split(rest, (k - i) as int);
        let tail = rest.subrange(k - i, rest.len() as int);
        if tail.len() > 0 {
            assert(tail[0] == s@[k as int]);
        }
        assert(leading_word(tail) =~= Seq::<char>::empty());
        assert(rest.subrange(0, k - i) =~= s@.subrange(i as int, k as int));
        assert(rest.subrange(0, k - i) + Seq::<char>::empty() =~= rest.subrange(0, k - i));
    }
    Some(slice_chars(s, i, k))
}

/// The seconds since the epoch in a commit's raw author time (such as
/// `1751295482 -0400`): the first word as a number, 0 when it is missing or
/// no number.
pub fn commit_timestamp(time: &str) -> (r: i64)
    ensures
        r == timestamp_of(time@),
{
    let cs = chars_of(time);
    match first_word_of(&cs) {
        Some(w) => match parse_i64(&w) {
            Some(v) => v,
            None => 0,
        },
        None => 0,
    }
}

/// The abbreviated hash shown for a commit: the first eight bytes of its
/// hash.
pub fn short_hash(hash: &str) -> (r: String)
    requires
        byte_prefix(hash@, 8) is Some,
    ensures
        byte_prefix(hash@, 8) == Some(r@),
{
    let cs = chars_of(hash);
    match byte_prefix_chars(&cs, 8) {
        Some(p) => string_of(&p),
        None => String::new(),
    }
}

/// What to do with the next commit that changed the file while a chunk of
/// the history is collected.
#[derive(Debug, Clone, Copy, PartialEq, Eq, Structural)]
pub enum ChunkStep {
    /// It comes before the chunk: count it and go on.
    Skip,
    /// It belongs to the chunk: read it and add it.
    Take,
    /// The chunk is full: stop, more history remains.
    Stop,
}

/// The decision for the next changed commit when `skipped` of the `start`
/// commits before the chunk were passed and `taken` of its `size` commits
/// were collected.
pub open spec fn decide(start: nat, size: nat, skipped: nat, taken: nat) -> ChunkStep {
    if skipped < start {
        ChunkStep::Skip
    } else if taken >= size {
        ChunkStep::Stop
    } else {
        ChunkStep::Take
    }
}

/// The chunk collected from the changed commits `rest` still to come, with
/// `collected` already taken: the commits and whether the history ended
/// before the chunk was full.
pub open spec fn chunk_run<A>(start: nat, size: nat, skipped: nat, collected: Seq<A>, rest: Seq<A>) -> (Seq<A>, bool)
    decreases rest.len(),
{
    if rest.len() == 0 {
        (collected, true)
    } else {
        match decide(start, size, skipped, collected.len()) {
            ChunkStep::Skip => chunk_run(start, size, skipped + 1, collected, rest.drop_first()),
            ChunkStep::Stop => (collected, false),
            ChunkStep::Take => chunk_run(start, size, skipped, collected.push(rest[0]), rest.drop_first()),
        }
    }
}

/// The commits `start .. start + size` of the changed commits `all`, and
/// whether `all` ends within that window.
pub open spec fn history_window<A>(all: Seq<A>, start: nat, size: nat) -> (Seq<A>, bool) {
    let lo = if start < all.len() { start as int } else { all.len() as int };
    let hi = if start + size < all.len() { (start + size) as int } else { all.len() as int };
    (all.subrange(lo, hi), all.len() <= start + size)
}

proof fn lemma_chunk_run<A>(start: nat, size: nat, skipped: nat, collected: Seq<A>, rest: Seq<A>)
    requires
        skipped <= start,
        collected.len() <= size,
        skipped < start ==> collected.len() == 0,
    ensures
        chunk_run(start, size, skipped, collected, rest) == ({
            let w = history_window(rest, (start - skipped) as nat, (size - collected.len()) as nat);
            (collected + w.0, w.1)
        }),
    decreases rest.len(),
{
    let k = (start - skipped) as nat;
    let m = (size - collected.len()) as nat;
    if rest.len() == 0 {
        assert(collected + rest.subrange(0, 0) =~= collected);
    } else if skipped < start {
        lemma_chunk_run(start, size, skipped + 1, collected, rest.drop_first());
        let d = rest.drop_first();
        let k1 = (k - 1) as nat;
        let lo1 = if k1 < d.len() { k1 as int } else { d.len() as int };
        let hi1 = if k1 + m < d.len() { (k1 + m) as int } else { d.len() as int };
        let lo = if k < rest.len() { k as int } else { rest.len() as int };
        let hi = if k + m < rest.len() { (k + m) as int } else { rest.len() as int };
        assert(lo == lo1 + 1 && hi == hi1 + 1);
        assert(d.subrange(lo1, hi1) =~= rest.subrange(lo, hi));
    } else if collected.len() >= size {
        assert(m == 0 && k == 0);
        assert(rest.subrange(0, 0) =~= Seq::<A>::empty());
        assert(collected + Seq::<A>::empty() =~= collected);
    } else {
        let c1 = collected.push(rest[0]);
        lemma_chunk_run(start, size, skipped, c1, rest.drop_first());
        let d = rest.drop_first();
        let m1 = (m - 1) as nat;
        let hi1 = if m1 < d.len() { m1 as int } else { d.len() as int };
        let hi = if m < rest.len() { m as int } else { rest.len() as int };
        assert(hi == hi1 + 1);
        assert(c1 + d.subrange(0, hi1) =~= collected + rest.subrange(0, hi));
    }
}

/// Loading a chunk of a file's history gives the window of the full
/// history that it asks for: walking the commits that changed the file and
/// deciding on each as `HistoryChunk::step` does collects exactly the commits
/// `start .. start + size` of them, and reports the history complete exactly
/// when it ends within that window.
pub proof fn law_chunk_is_window<A>(all: Seq<A>, start: nat, size: nat)
    ensures
        chunk_run(start, size, 0, Seq::<A>::empty(), all) == history_window(all, start, size),
{
    lemma_chunk_run(start, size, 0, Seq::<A>::empty(), all);
    let w = history_window(all, start, size);
    assert(Seq::<A>::empty() + w.0 =~= w.0);
}

/// Loading the history chunk after chunk, each starting where the last
/// ended, loses and repeats no commit: the window of `n` commits from
/// `start` followed by the window of `m` commits from `start + n` is the
/// window of `n + m` commits from `start`.
pub proof fn law_windows_concatenate<A>(all: Seq<A>, start: nat, n: nat, m: nat)
    ensures
        history_window(all, start, n).0 + history_window(all, start + n, m).0 == history_window(all, start, n + m).0,
        history_window(all, start + n, m).1 == history_window(all, start, n + m).1,
{
    let len = all.len();
    let lo = if start < len { start as int } else { len as int };
    let mid = if start + n < len { (start + n) as int } else { len as int };
    let hi = if start + n + m < len { (start + n + m) as int } else { len as int };
    assert(all.subrange(lo, mid) + all.subrange(mid, hi) =~= all.subrange(lo, hi));
}

/// A chunk of a file's history being collected: `size` commits after the
/// first `start` commits that changed the file.
#[derive(Debug)]
pub struct HistoryChunk {
    start: usize,
    size: usize,
    skipped: usize,
    commits: Vec<CommitInfo>,
}

/// The value of a chunk being collected.
pub struct ChunkView {
    pub start: nat,
    pub size: nat,
    pub skipped: nat,
    pub commits: Seq<CommitView>,
}

impl View for HistoryChunk {
    type V = ChunkView;

    closed spec fn view(&self) -> ChunkView {
        ChunkView {
            start: self.start as nat,
            size: self.size as nat,
            skipped: self.skipped as nat,
            commits: self.commits@.map_values(|c: CommitInfo| c@),
        }
    }
}

impl HistoryChunk {
    #[verifier::type_invariant]
    spec fn counts_agree(self) -> bool {
        &&& self.skipped <= self.start
        &&& self.commits@.len() <= self.size
        &&& self.skipped < self.start ==> self.commits@.len() == 0
    }

    /// A chunk of `chunk_size` commits after the first `start_offset`, with
    /// nothing seen yet.
    pub fn new(chunk_size: usize, start_offset: usize) -> (r: Self)
        ensures
            r@.start == start_offset,
            r@.size == chunk_size,
            r@.skipped == 0,
            r@.commits.len() == 0,
    {
        HistoryChunk { start: start_offset, size: chunk_size, skipped: 0, commits: Vec::new() }
    }

    /// The decision for the next commit that changed the file.
    pub fn step(&self) -> (r: ChunkStep)
        ensures
            r == decide(self@.start, self@.size, self@.skipped, self@.commits.len()),
    {
        if self.skipped < self.start {
            ChunkStep::Skip
        } else if self.commits.len() >= self.size {
            ChunkStep::Stop
        } else {
            ChunkStep::Take
        }
    }

    /// Passes over a commit before the chunk.
    pub fn skip(&mut self)
        requires
            decide(old(self)@.start, old(self)@.size, old(self)@.skipped, old(self)@.commits.len()) == ChunkStep::Skip,
        ensures
            final(self)@ == (ChunkView { skipped: old(self)@.skipped + 1, ..old(self)@ }),
    {
        proof {
            use_type_invariant(&*self);
        }
        self.skipped = self.skipped + 1;
    }

    /// Adds a commit of the chunk.
    pub fn take(&mut self, commit: CommitInfo)
        requires
            decide(old(self)@.start, old(self)@.size, old(self)@.skipped, old(self)@.commits.len()) == ChunkStep::Take,
        ensures
            final(self)@ == (ChunkView { commits: old(self)@.commits.push(commit@), ..old(self)@ }),
    {
        proof {
            use_type_invariant(&*self);
        }
        let ghost before = self.commits@;
        let mut v: Vec<CommitInfo> = Vec::new();
        std::mem::swap(&mut v, &mut self.commits);
        v.push(commit);
        proof {
            assert(v@.map_values(|c: CommitInfo| c@) =~= before.map_values(|c: CommitInfo| c@).push(commit@));
        }
        self.commits = v;
    }

    /// The commits collected.
    pub fn into_commits(self) -> (r: Vec<CommitInfo>)
        ensures
            r@.map_values(|c: CommitInfo| c@) == self@.commits,
    {
        self.commits
    }
}

/// What `String::from_utf8_lossy` makes of some bytes, by characters.
pub uninterp spec fn lossy_text(bytes: Seq<u8>) -> Seq<char>;

/// Calls `String::from_utf8_lossy`. Its documentation: valid UTF-8 is taken
/// as it is, and each invalid sequence becomes U+FFFD. The result is named;
/// the first of the two facts is stated.
#[verifier::external_body]
fn utf8_lossy(bytes: &[u8]) -> (r: String)
    ensures
        r@ == lossy_text(bytes@),
        vstd::utf8::valid_utf8(bytes@) ==> r@ == vstd::utf8::decode_utf8(bytes@),
{
    String::from_utf8_lossy(bytes).into_owned()
}

/// The lines of a file from the bytes of its blob, invalid UTF-8 being
/// replaced rather than refused.
pub fn blob_lines(bytes: &[u8]) -> (r: Vec<String>)
    ensures
        text_views(r@) == lines_of(lossy_text(bytes@)),
        vstd::utf8::valid_utf8(bytes@) ==> text_views(r@) == lines_of(vstd::utf8::decode_utf8(bytes@)),
{
    let s = utf8_lossy(bytes);
    text_lines(s.as_str())
}

} // verus!
