//! Mapping line numbers between two versions of a file, so that the cursor
//! stays on the same content when the inspected commit changes.

use vstd::prelude::*;
use crate::app::text_views;
use crate::text::{chars_eq, chars_of, lines_chars, lines_of, string_of, str_eq, views_of};

verus! {

/// Which side of a line diff a line belongs to.
#[derive(Debug, Clone, Copy, PartialEq, Eq, Structural)]
pub enum DiffTag {
    Equal,
    Delete,
    Insert,
}

/// The tags that `similar::TextDiff::from_lines(old, new).iter_all_changes()`
/// yields, in order, for two texts.
pub uninterp spec fn line_diff(old: Seq<char>, new: Seq<char>) -> Seq<DiffTag>;

/// Runs `similar`'s line diff on two texts and returns the tag of each change
/// in order. The diff algorithm is named, not stated: the result is exactly
/// `line_diff` of the two texts.
#[verifier::external_body]
fn diff_line_tags(old: &str, new: &str) -> (r: Vec<DiffTag>)
    ensures
        r@ == line_diff(old@, new@),
{
    similar::TextDiff::from_lines(old, new)
        .iter_all_changes()
        .map(|c| match c.tag() {
            similar::ChangeTag::Equal => DiffTag::Equal,
            similar::ChangeTag::Delete => DiffTag::Delete,
            similar::ChangeTag::Insert => DiffTag::Insert,
        })
        .collect()
}

/// Calls `String::from_utf8`: by its documentation the bytes are taken as the
/// string when they are valid UTF-8, and refused otherwise.
#[verifier::external_body]
fn utf8_string(bytes: Vec<u8>) -> (r: Option<String>)
    ensures
        match r {
            Some(s) => vstd::utf8::valid_utf8(bytes@) && s@ == vstd::utf8::decode_utf8(bytes@),
            None => !vstd::utf8::valid_utf8(bytes@),
        },
{
    String::from_utf8(bytes).ok()
}

/// The mapping of line numbers between an old and a new version of a file.
#[derive(Debug, Clone, PartialEq)]
pub struct LineMapping {
    /// Old line to new line; `None` for a line that was deleted.
    pub mapping: Vec<Option<usize>>,
    /// New line to old line; `None` for a line that was added.
    pub reverse_mapping: Vec<Option<usize>>,
    pub old_file_size: usize,
    pub new_file_size: usize,
}

/// Why file content could not be had or mapped.
#[derive(Debug, Clone, PartialEq, Eq)]
pub enum LineMappingError {
    Git(String),
    ObjectNotFound(String),
    FileNotFound { path: String },
    BinaryFile { path: String },
    DiffFailed { reason: String },
}

/// The entry of `m` at `i`, or `None` past its end.
pub open spec fn entry(m: Seq<Option<usize>>, i: int) -> Option<usize> {
    if 0 <= i < m.len() { m[i] } else { None }
}

/// The search for the nearest mapped line from radius `r` on: at each radius
/// the line before is tried first, then the line after.
pub open spec fn nearest_from(m: Seq<Option<usize>>, old_size: int, line: int, r: int, radius: int) -> Option<usize>
    decreases radius + 1 - r,
{
    if r > radius || r < 1 {
        None
    } else if line >= r && entry(m, line - r) is Some {
        entry(m, line - r)
    } else if line + r < old_size && entry(m, line + r) is Some {
        entry(m, line + r)
    } else {
        nearest_from(m, old_size, line, r + 1, radius)
    }
}

/// The mapped line of `line`, or the nearest mapped line within `radius`.
pub open spec fn nearest_mapped(m: Seq<Option<usize>>, old_size: int, line: int, radius: int) -> Option<usize> {
    if entry(m, line) is Some {
        entry(m, line)
    } else {
        nearest_from(m, old_size, line, 1, radius)
    }
}

/// `line` scaled from the old length to the new one and rounded to the
/// nearest line, halves away from zero; at most the last new line.
pub open spec fn proportional(old_size: int, new_size: int, line: int) -> int {
    if old_size == 0 {
        0
    } else {
        let scaled = (line * new_size) / old_size + (if 2 * ((line * new_size) % old_size) >= old_size { 1int } else { 0int });
        let last = if new_size >= 1 { new_size - 1 } else { 0 };
        if scaled < last { scaled } else { last }
    }
}

/// The state after the tags: the two mappings and the next old and new line.
pub open spec fn tags_state(tags: Seq<DiffTag>, old_n: nat, new_n: nat) -> (Seq<Option<usize>>, Seq<Option<usize>>, nat, nat)
    decreases tags.len(),
{
    if tags.len() == 0 {
        (Seq::new(old_n, |i: int| None::<usize>), Seq::new(new_n, |i: int| None::<usize>), 0, 0)
    } else {
        let (m, rm, oi, ni) = tags_state(tags.drop_last(), old_n, new_n);
        match tags.last() {
            DiffTag::Equal => if oi < old_n && ni < new_n {
                (m.update(oi as int, Some(ni as usize)), rm.update(ni as int, Some(oi as usize)), oi + 1, ni + 1)
            } else {
                (m, rm, oi + 1, ni + 1)
            },
            DiffTag::Delete => (m, rm, oi + 1, ni),
            DiffTag::Insert => (m, rm, oi, ni + 1),
        }
    }
}

/// The two mappings agree and keep the order of lines: an old line mapped
/// to a new line is the line that new line maps back to, and of two mapped
/// old lines the earlier one maps to the earlier new line.
pub open spec fn consistent(m: Seq<Option<usize>>, rm: Seq<Option<usize>>) -> bool {
    &&& forall|i: int| #![trigger m[i]] 0 <= i < m.len() && m[i] is Some ==>
        m[i].unwrap() < rm.len() && rm[m[i].unwrap() as int] == Some(i as usize)
    &&& forall|j: int| #![trigger rm[j]] 0 <= j < rm.len() && rm[j] is Some ==>
        rm[j].unwrap() < m.len() && m[rm[j].unwrap() as int] == Some(j as usize)
    &&& forall|i1: int, i2: int| #![trigger m[i1], m[i2]] 0 <= i1 < i2 < m.len() && m[i1] is Some && m[i2] is Some ==>
        m[i1].unwrap() < m[i2].unwrap()
}

proof fn lemma_tags_state_inv(tags: Seq<DiffTag>, old_n: nat, new_n: nat)
    requires
        old_n <= usize::MAX,
        new_n <= usize::MAX,
    ensures
        ({
            let (m, rm, oi, ni) = tags_state(tags, old_n, new_n);
            &&& m.len() == old_n
            &&& rm.len() == new_n
            &&& consistent(m, rm)
            &&& forall|i: int| #![trigger m[i]] 0 <= i < m.len() && m[i] is Some ==> i < oi && m[i].unwrap() < ni
            &&& forall|j: int| #![trigger rm[j]] 0 <= j < rm.len() && rm[j] is Some ==> j < ni
        }),
    decreases tags.len(),
{
    if tags.len() > 0 {
        lemma_tags_state_inv(tags.drop_last(), old_n, new_n);
        let (m, rm, oi, ni) = tags_state(tags.drop_last(), old_n, new_n);
        if tags.last() == DiffTag::Equal && oi < old_n && ni < new_n {
            let m2 = m.update(oi as int, Some(ni as usize));
            let rm2 = rm.update(ni as int, Some(oi as usize));
            assert(m[oi as int] is None);
            assert(rm[ni as int] is None);
            assert forall|i: int| #![trigger m2[i]] 0 <= i < m2.len() && m2[i] is Some implies
                m2[i].unwrap() < rm2.len() && rm2[m2[i].unwrap() as int] == Some(i as usize) by {
                if i != oi {
                    assert(m2[i] == m[i]);
                    assert(m[i] is Some);
                    let j = m[i].unwrap();
                    assert(j < ni);
                    assert(rm[j as int] == Some(i as usize));
                    assert(rm2[j as int] == rm[j as int]);
                } else {
                    assert(m2[i] == Some(ni as usize));
                    assert(rm2[ni as int] == Some(oi as usize));
                }
            }
            assert forall|j: int| #![trigger rm2[j]] 0 <= j < rm2.len() && rm2[j] is Some implies
                rm2[j].unwrap() < m2.len() && m2[rm2[j].unwrap() as int] == Some(j as usize) by {
                if j != ni {
                    assert(rm2[j] == rm[j]);
                    assert(rm[j] is Some);
                    let i = rm[j].unwrap() as int;
                    assert(m[i] == Some(j as usize));
                    assert(i < oi);
                    assert(m2[i] == m[i]);
                } else {
                    assert(rm2[j] == Some(oi as usize));
                    assert(m2[oi as int] == Some(ni as usize));
                }
            }
            assert forall|i1: int, i2: int| #![trigger m2[i1], m2[i2]] 0 <= i1 < i2 < m2.len() && m2[i1] is Some && m2[i2] is Some implies
                m2[i1].unwrap() < m2[i2].unwrap() by {
                if i2 == oi {
                    assert(m2[i1] == m[i1]);
                    assert(m[i1] is Some);
                    assert(m[i1].unwrap() < ni);
                } else {
                    assert(m2[i2] == m[i2]);
                    assert(m[i2] is Some);
                    assert(i2 < oi);
                    assert(m2[i1] == m[i1]);
                    assert(m[i1] is Some);
                    assert(m[i1].unwrap() < m[i2].unwrap());
                }
            }
        }
    }
}

/// The mapping built from any line diff is consistent: the line mapped
/// from an old line maps back to it, and mapped lines keep their order.
pub proof fn law_mapping_consistent(tags: Seq<DiffTag>, old_n: nat, new_n: nat)
    requires
        old_n <= usize::MAX,
        new_n <= usize::MAX,
    ensures
        consistent(tags_state(tags, old_n, new_n).0, tags_state(tags, old_n, new_n).1),
{
    lemma_tags_state_inv(tags, old_n, new_n);
}

/// Rounding `a / o` to the nearest integer, halves up, keeps the order of `a`.
proof fn lemma_rounded_quotient_ordered(a: int, b: int, o: int)
    requires
        0 <= a <= b,
        o > 0,
    ensures
        a / o + (if 2 * (a % o) >= o { 1int } else { 0int }) <= b / o + (if 2 * (b % o) >= o { 1int } else { 0int }),
{
    vstd::arithmetic::div_mod::lemma_div_is_ordered(a, b, o);
    vstd::arithmetic::div_mod::lemma_fundamental_div_mod(a, o);
    vstd::arithmetic::div_mod::lemma_fundamental_div_mod(b, o);
    vstd::arithmetic::div_mod::lemma_mod_pos_bound(a, o);
    vstd::arithmetic::div_mod::lemma_mod_pos_bound(b, o);
    if a / o == b / o {
        assert(a % o <= b % o) by {
            assert(o * (a / o) == o * (b / o));
        }
    }
}

/// The proportional position never passes the last line of the new file,
/// is 0 when the old file is empty, and keeps the order of lines: a later
/// old line never lands before an earlier one.
pub proof fn law_proportional_ordered(old_size: nat, new_size: nat, a: nat, b: nat)
    requires
        a <= b,
    ensures
        proportional(old_size as int, new_size as int, a as int) <= proportional(old_size as int, new_size as int, b as int),
        proportional(old_size as int, new_size as int, a as int) <= (if new_size >= 1 { new_size - 1 } else { 0 }),
        old_size == 0 ==> proportional(old_size as int, new_size as int, a as int) == 0,
{
    if old_size > 0 {
        assert(a * new_size <= b * new_size) by (nonlinear_arith)
            requires
                a <= b,
        ;
        assert(0 <= a * new_size) by (nonlinear_arith);
        lemma_rounded_quotient_ordered((a * new_size) as int, (b * new_size) as int, old_size as int);
    }
}

/// Whether `k` is the only line of `new` equal to `t`.
pub open spec fn unique_match(new: Seq<Seq<char>>, t: Seq<char>, k: int) -> bool {
    &&& 0 <= k < new.len()
    &&& new[k] == t
    &&& forall|j: int| 0 <= j < new.len() && j != k ==> new[j] != t
}

/// Whether the mapped line `m` holds the text `t` in `new`.
pub open spec fn verified(new: Seq<Seq<char>>, m: Option<usize>, t: Seq<char>) -> bool {
    m matches Some(k) && k < new.len() && new[k as int] == t
}

/// The search for a content-verified mapped line from radius `r` on.
pub open spec fn verified_from(m: Seq<Option<usize>>, old_size: int, new: Seq<Seq<char>>, t: Seq<char>, line: int, r: int, radius: int) -> Option<usize>
    decreases radius + 1 - r,
{
    if r > radius || r < 1 {
        None
    } else if line >= r && verified(new, entry(m, line - r), t) {
        entry(m, line - r)
    } else if line + r < old_size && verified(new, entry(m, line + r), t) {
        entry(m, line + r)
    } else {
        verified_from(m, old_size, new, t, line, r + 1, radius)
    }
}

/// The mapped line of `line` or the nearest one within `radius`, accepted
/// only where the new line holds the same text as the old one.
pub open spec fn verified_nearest(m: Seq<Option<usize>>, old_size: int, old: Seq<Seq<char>>, new: Seq<Seq<char>>, line: int, radius: int) -> Option<usize> {
    if line >= old.len() {
        None
    } else if verified(new, entry(m, line), old[line]) {
        entry(m, line)
    } else {
        verified_from(m, old_size, new, old[line], line, 1, radius)
    }
}

proof fn lemma_nearest_step(m: Seq<Option<usize>>, old_size: int, line: int, r: int, radius: int)
    ensures
        nearest_from(m, old_size, line, r, radius) == (if r > radius || r < 1 {
            None
        } else if line >= r && entry(m, line - r) is Some {
            entry(m, line - r)
        } else if line + r < old_size && entry(m, line + r) is Some {
            entry(m, line + r)
        } else {
            nearest_from(m, old_size, line, r + 1, radius)
        }),
{
}

proof fn lemma_verified_step(m: Seq<Option<usize>>, old_size: int, new: Seq<Seq<char>>, t: Seq<char>, line: int, r: int, radius: int)
    ensures
        verified_from(m, old_size, new, t, line, r, radius) == (if r > radius || r < 1 {
            None
        } else if line >= r && verified(new, entry(m, line - r), t) {
            entry(m, line - r)
        } else if line + r < old_size && verified(new, entry(m, line + r), t) {
            entry(m, line + r)
        } else {
            verified_from(m, old_size, new, t, line, r + 1, radius)
        }),
{
}

fn none_vec(n: usize) -> (v: Vec<Option<usize>>)
    ensures
        v@ == Seq::new(n as nat, |i: int| None::<usize>),
{
    let mut v: Vec<Option<usize>> = Vec::new();
    let mut i: usize = 0;
    while i < n
        invariant
            i <= n,
            v@ == Seq::new(i as nat, |k: int| None::<usize>),
        decreases n - i,
    {
        v.push(None);
        i = i + 1;
        assert(v@ =~= Seq::new(i as nat, |k: int| None::<usize>));
    }
    v
}

fn get_entry(m: &Vec<Option<usize>>, i: usize) -> (r: Option<usize>)
    ensures
        r == entry(m@, i as int),
{
    if i < m.len() { m[i] } else { None }
}

/// Whether the new line `m` holds the text `t`.
fn check_verified(new_lines: &Vec<String>, m: Option<usize>, t: &[char]) -> (r: bool)
    ensures
        r == verified(text_views(new_lines@), m, t@),
{
    match m {
        Some(k) => {
            if k < new_lines.len() {
                let c = chars_of(new_lines[k].as_str());
                chars_eq(c.as_slice(), t)
            } else {
                false
            }
        }
        None => false,
    }
}

impl LineMapping {
    /// A mapping in which no line is mapped.
    pub fn new(old_size: usize, new_size: usize) -> (r: Self)
        ensures
            r.mapping@ == Seq::new(old_size as nat, |i: int| None::<usize>),
            r.reverse_mapping@ == Seq::new(new_size as nat, |i: int| None::<usize>),
            r.old_file_size == old_size,
            r.new_file_size == new_size,
    {
        LineMapping {
            mapping: none_vec(old_size),
            reverse_mapping: none_vec(new_size),
            old_file_size: old_size,
            new_file_size: new_size,
        }
    }

    /// The mapping of a file onto itself: every line to the same line.
    pub fn identity(file_size: usize) -> (r: Self)
        ensures
            r.mapping@ == Seq::new(file_size as nat, |i: int| Some(i as usize)),
            r.reverse_mapping@ == Seq::new(file_size as nat, |i: int| Some(i as usize)),
            r.old_file_size == file_size,
            r.new_file_size == file_size,
    {
        let mut m: Vec<Option<usize>> = Vec::new();
        let mut i: usize = 0;
        while i < file_size
            invariant
                i <= file_size,
                m@ == Seq::new(i as nat, |k: int| Some(k as usize)),
            decreases file_size - i,
        {
            m.push(Some(i));
            i = i + 1;
            assert(m@ =~= Seq::new(i as nat, |k: int| Some(k as usize)));
        }
        let mut rm: Vec<Option<usize>> = Vec::new();
        let mut j: usize = 0;
        while j < file_size
            invariant
                j <= file_size,
                rm@ == Seq::new(j as nat, |k: int| Some(k as usize)),
            decreases file_size - j,
        {
            rm.push(Some(j));
            j = j + 1;
            assert(rm@ =~= Seq::new(j as nat, |k: int| Some(k as usize)));
        }
        LineMapping { mapping: m, reverse_mapping: rm, old_file_size: file_size, new_file_size: file_size }
    }

    /// The new line of an old line; `None` when it was deleted or is past the end.
    pub fn map_line(&self, old_line: usize) -> (r: Option<usize>)
        ensures
            r == entry(self.mapping@, old_line as int),
    {
        get_entry(&self.mapping, old_line)
    }

    /// The old line of a new line; `None` when it was added or is past the end.
    pub fn reverse_map_line(&self, new_line: usize) -> (r: Option<usize>)
        ensures
            r == entry(self.reverse_mapping@, new_line as int),
    {
        get_entry(&self.reverse_mapping, new_line)
    }

    /// The mapped line of `old_line`; failing that, the mapping of the
    /// nearest mapped line within `search_radius`, the line before tried
    /// before the line after at each distance.
    pub fn find_nearest_mapped_line(&self, old_line: usize, search_radius: usize) -> (r: Option<usize>)
        ensures
            r == nearest_mapped(self.mapping@, self.old_file_size as int, old_line as int, search_radius as int),
    {
        let exact = self.map_line(old_line);
        if exact.is_some() {
            return exact;
        }
        let mut radius: usize = 1;
        while radius <= search_radius
            invariant
                1 <= radius <= search_radius + 1,
                entry(self.mapping@, old_line as int) is None,
                nearest_from(self.mapping@, self.old_file_size as int, old_line as int, 1, search_radius as int)
                    == nearest_from(self.mapping@, self.old_file_size as int, old_line as int, radius as int, search_radius as int),
            decreases search_radius + 1 - radius,
        {
            proof {
                lemma_nearest_step(self.mapping@, self.old_file_size as int, old_line as int, radius as int, search_radius as int);
                lemma_nearest_step(self.mapping@, self.old_file_size as int, old_line as int, radius + 1, search_radius as int);
            }
            if old_line >= radius {
                let m = self.map_line(old_line - radius);
                if m.is_some() {
                    return m;
                }
            }
            if radius < self.old_file_size && old_line < self.old_file_size - radius {
                let m = self.map_line(old_line + radius);
                if m.is_some() {
                    return m;
                }
            }
            if radius == search_radius {
                return None;
            }
            radius = radius + 1;
        }
        None
    }

    /// `old_line` scaled to the new length, rounded to the nearest line, and
    /// kept within the new file; 0 when the old file is empty.
    pub fn proportional_map(&self, old_line: usize) -> (r: usize)
        ensures
            r == proportional(self.old_file_size as int, self.new_file_size as int, old_line as int),
    {
        if self.old_file_size == 0 {
            return 0;
        }
        let a = old_line as u128;
        let b = self.new_file_size as u128;
        assert(a * b <= 0xffff_ffff_ffff_ffff * 0xffff_ffff_ffff_ffff) by (nonlinear_arith)
            requires
                a <= 0xffff_ffff_ffff_ffff,
                b <= 0xffff_ffff_ffff_ffff,
        ;
        let product: u128 = a * b;
        let old = self.old_file_size as u128;
        let q = product / old;
        let rem = product % old;
        assert(q <= product) by (nonlinear_arith)
            requires
                old >= 1,
                q == product / old,
        ;
        let rounded: u128 = if 2 * rem >= old { q + 1 } else { q };
        let last: usize = if self.new_file_size >= 1 { self.new_file_size - 1 } else { 0 };
        if rounded < last as u128 { rounded as usize } else { last }
    }

    /// The new line holding the same text as `old_line`, when exactly one
    /// new line holds it; the texts are the two versions, line by line.
    pub fn find_exact_content_match(&self, old_line: usize, old_lines: &Vec<String>, new_lines: &Vec<String>) -> (r: Option<usize>)
        ensures
            match r {
                Some(k) => old_line < old_lines@.len()
                    && unique_match(text_views(new_lines@), old_lines@[old_line as int]@, k as int),
                None => old_line >= old_lines@.len()
                    || forall|k: int| !unique_match(text_views(new_lines@), #[trigger] old_lines@[old_line as int]@, k),
            },
    {
        if old_line >= old_lines.len() {
            return None;
        }
        let t = chars_of(old_lines[old_line].as_str());
        let ghost nv = text_views(new_lines@);
        let mut found: Option<usize> = None;
        let mut count: usize = 0;
        let mut i: usize = 0;
        while i < new_lines.len()
            invariant
                i <= new_lines@.len(),
                nv == text_views(new_lines@),
                nv.len() == new_lines@.len(),
                t@ == old_lines@[old_line as int]@,
                count <= i,
                count == 0 ==> found is None && forall|j: int| 0 <= j < i ==> nv[j] != t@,
                count == 1 ==> (found matches Some(k) && k < i && nv[k as int] == t@
                    && forall|j: int| 0 <= j < i && j != k ==> nv[j] != t@),
                count >= 2 ==> exists|a: int, b: int| 0 <= a < b < i && nv[a] == t@ && nv[b] == t@,
            decreases new_lines@.len() - i,
        {
            let c = chars_of(new_lines[i].as_str());
            if chars_eq(c.as_slice(), t.as_slice()) {
                if count == 1 {
                    let k = found.unwrap();
                    assert(0 <= k < i && nv[k as int] == t@ && nv[i as int] == t@);
                }
                if count < 2 {
                    count = count + 1;
                }
                if found.is_none() {
                    found = Some(i);
                }
            }
            i = i + 1;
        }
        if count == 1 {
            found
        } else {
            proof {
                if count >= 2 {
                    let (a, b) = choose|a: int, b: int| 0 <= a < b < nv.len() && nv[a] == t@ && nv[b] == t@;
                    assert forall|k: int| !unique_match(nv, #[trigger] old_lines@[old_line as int]@, k) by {
                        if unique_match(nv, t@, k) {
                            if k == a {
                                assert(nv[b] != t@);
                            } else {
                                assert(nv[a] != t@);
                            }
                        }
                    }
                }
            }
            None
        }
    }

    /// The mapped line of `old_line`, or the nearest one within
    /// `search_radius`, accepted only where the new line holds the same text
    /// as the old line; the texts are the two versions, line by line.
    pub fn find_content_aware_nearest_mapped_line(
        &self,
        old_line: usize,
        search_radius: usize,
        old_lines: &Vec<String>,
        new_lines: &Vec<String>,
    ) -> (r: Option<usize>)
        ensures
            r == verified_nearest(self.mapping@, self.old_file_size as int, text_views(old_lines@), text_views(new_lines@), old_line as int, search_radius as int),
    {
        if old_line >= old_lines.len() {
            return None;
        }
        let t = chars_of(old_lines[old_line].as_str());
        let exact = self.map_line(old_line);
        if check_verified(new_lines, exact, t.as_slice()) {
            return exact;
        }
        let ghost tv = text_views(old_lines@)[old_line as int];
        assert(t@ == tv);
        let mut radius: usize = 1;
        while radius <= search_radius
            invariant
                1 <= radius <= search_radius + 1,
                t@ == tv,
                old_line < old_lines@.len(),
                tv == text_views(old_lines@)[old_line as int],
                !verified(text_views(new_lines@), entry(self.mapping@, old_line as int), tv),
                verified_from(self.mapping@, self.old_file_size as int, text_views(new_lines@), tv, old_line as int, 1, search_radius as int)
                    == verified_from(self.mapping@, self.old_file_size as int, text_views(new_lines@), tv, old_line as int, radius as int, search_radius as int),
            decreases search_radius + 1 - radius,
        {
            proof {
                lemma_verified_step(self.mapping@, self.old_file_size as int, text_views(new_lines@), tv, old_line as int, radius as int, search_radius as int);
                lemma_verified_step(self.mapping@, self.old_file_size as int, text_views(new_lines@), tv, old_line as int, radius + 1, search_radius as int);
            }
            if old_line >= radius {
                let m = self.map_line(old_line - radius);
                if check_verified(new_lines, m, t.as_slice()) {
                    return m;
                }
            }
            if radius < self.old_file_size && old_line < self.old_file_size - radius {
                let m = self.map_line(old_line + radius);
                if check_verified(new_lines, m, t.as_slice()) {
                    return m;
                }
            }
            if radius == search_radius {
                return None;
            }
            radius = radius + 1;
        }
        None
    }

    /// The nearest mapped line; when there is none, the unique new line with
    /// the same text.
    pub fn find_nearest_mapped_line_with_content_fallback(
        &self,
        old_line: usize,
        search_radius: usize,
        old_lines: &Vec<String>,
        new_lines: &Vec<String>,
    ) -> (r: Option<usize>)
        ensures
            nearest_mapped(self.mapping@, self.old_file_size as int, old_line as int, search_radius as int) is Some
                ==> r == nearest_mapped(self.mapping@, self.old_file_size as int, old_line as int, search_radius as int),
            nearest_mapped(self.mapping@, self.old_file_size as int, old_line as int, search_radius as int) is None ==> match r {
                Some(k) => old_line < old_lines@.len()
                    && unique_match(text_views(new_lines@), old_lines@[old_line as int]@, k as int),
                None => old_line >= old_lines@.len()
                    || forall|k: int| !unique_match(text_views(new_lines@), #[trigger] old_lines@[old_line as int]@, k),
            },
    {
        let m = self.find_nearest_mapped_line(old_line, search_radius);
        if m.is_some() {
            return m;
        }
        self.find_exact_content_match(old_line, old_lines, new_lines)
    }

    /// The mapping built from the tags of a line diff of an old text of
    /// `old_size` lines and a new text of `new_size` lines: equal lines are
    /// mapped both ways, deleted and inserted lines stay unmapped.
    pub fn from_diff_tags(old_size: usize, new_size: usize, tags: &Vec<DiffTag>) -> (r: Self)
        ensures
            r.mapping@ == tags_state(tags@, old_size as nat, new_size as nat).0,
            r.reverse_mapping@ == tags_state(tags@, old_size as nat, new_size as nat).1,
            r.old_file_size == old_size,
            r.new_file_size == new_size,
    {
        let mut lm = LineMapping::new(old_size, new_size);
        let mut oi: usize = 0;
        let mut ni: usize = 0;
        let mut i: usize = 0;
        proof {
            assert(tags@.subrange(0, 0) =~= Seq::<DiffTag>::empty());
        }
        while i < tags.len()
            invariant
                i <= tags@.len(),
                oi <= i,
                ni <= i,
                lm.old_file_size == old_size,
                lm.new_file_size == new_size,
                tags_state(tags@.subrange(0, i as int), old_size as nat, new_size as nat)
                    == (lm.mapping@, lm.reverse_mapping@, oi as nat, ni as nat),
                lm.mapping@.len() == old_size,
                lm.reverse_mapping@.len() == new_size,
            decreases tags@.len() - i,
        {
            proof {
                let pre = tags@.subrange(0, i + 1);
                assert(pre.drop_last() =~= tags@.subrange(0, i as int));
                assert(pre.last() == tags@[i as int]);
            }
            match tags[i] {
                DiffTag::Equal => {
                    if oi < old_size && ni < new_size {
                        lm.mapping.set(oi, Some(ni));
                        lm.reverse_mapping.set(ni, Some(oi));
                    }
                    oi = oi + 1;
                    ni = ni + 1;
                }
                DiffTag::Delete => {
                    oi = oi + 1;
                }
                DiffTag::Insert => {
                    ni = ni + 1;
                }
            }
            i = i + 1;
        }
        assert(tags@.subrange(0, tags@.len() as int) =~= tags@);
        lm
    }
}

/// The line mapping between two versions of a file, given the commits they
/// come from and their texts: the identity when the commits are the same,
/// else the mapping from the line diff of the two texts.
pub fn map_lines_between_commits(from_commit: &str, to_commit: &str, old_content: &str, new_content: &str) -> (r: LineMapping)
    ensures
        from_commit@ == to_commit@ ==> (r.old_file_size == lines_of(old_content@).len()
            && r.new_file_size == lines_of(old_content@).len()
            && r.mapping@ == Seq::new(lines_of(old_content@).len(), |i: int| Some(i as usize))
            && r.reverse_mapping@ == Seq::new(lines_of(old_content@).len(), |i: int| Some(i as usize))),
        from_commit@ != to_commit@ ==> r.old_file_size == lines_of(old_content@).len()
            && r.new_file_size == lines_of(new_content@).len()
            && r.mapping@ == tags_state(line_diff(old_content@, new_content@), lines_of(old_content@).len(), lines_of(new_content@).len()).0
            && r.reverse_mapping@ == tags_state(line_diff(old_content@, new_content@), lines_of(old_content@).len(), lines_of(new_content@).len()).1,
{
    let oc = chars_of(old_content);
    let old_lines = lines_chars(oc.as_slice());
    proof {
        assert(views_of(old_lines@).len() == old_lines@.len());
    }
    if str_eq(from_commit, to_commit) {
        return LineMapping::identity(old_lines.len());
    }
    let nc = chars_of(new_content);
    let new_lines = lines_chars(nc.as_slice());
    proof {
        assert(views_of(new_lines@).len() == new_lines@.len());
    }
    let tags = diff_line_tags(old_content, new_content);
    LineMapping::from_diff_tags(old_lines.len(), new_lines.len(), &tags)
}

/// The text of a file from its bytes: refused as binary when a byte is zero
/// or the bytes are not UTF-8.
pub fn decode_file_content(path: &str, bytes: Vec<u8>) -> (r: Result<String, LineMappingError>)
    ensures
        match r {
            Ok(s) => !bytes@.contains(0u8) && vstd::utf8::valid_utf8(bytes@) && s@ == vstd::utf8::decode_utf8(bytes@),
            Err(e) => (bytes@.contains(0u8) || !vstd::utf8::valid_utf8(bytes@))
                && (e matches LineMappingError::BinaryFile { path: p } && p@ == path@),
        },
{
    let mut i: usize = 0;
    while i < bytes.len()
        invariant
            i <= bytes@.len(),
            forall|j: int| 0 <= j < i ==> bytes@[j] != 0u8,
        decreases bytes@.len() - i,
    {
        if bytes[i] == 0 {
            assert(bytes@[i as int] == 0u8);
            return Err(LineMappingError::BinaryFile { path: path.to_owned() });
        }
        i = i + 1;
    }
    assert(!bytes@.contains(0u8));
    let ghost b = bytes@;
    match utf8_string(bytes) {
        Some(s) => Ok(s),
        None => Err(LineMappingError::BinaryFile { path: path.to_owned() }),
    }
}

/// The lines of a text, as `str::lines` gives them.
pub fn text_lines(content: &str) -> (r: Vec<String>)
    ensures
        text_views(r@) == lines_of(content@),
{
    let c = chars_of(content);
    let ls = lines_chars(c.as_slice());
    let mut out: Vec<String> = Vec::new();
    let mut i: usize = 0;
    while i < ls.len()
        invariant
            i <= ls@.len(),
            views_of(ls@) == lines_of(content@),
            out@.len() == i,
            forall|j: int| 0 <= j < i ==> #[trigger] out@[j]@ == ls@[j]@,
        decreases ls@.len() - i,
    {
        out.push(string_of(ls[i].as_slice()));
        i = i + 1;
    }
    assert(text_views(out@) =~= views_of(ls@));
    out
}

} // verus!
