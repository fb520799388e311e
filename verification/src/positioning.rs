//! Keeping the inspector's cursor on the same line of code when the shown
//! commit changes: the line is mapped through the diff between the two
//! versions, with fallbacks when it was changed or deleted.

use vstd::prelude::*;
use crate::app::{position_lookup, text_views, App, InspectorState};
use crate::line_mapping::{
    entry, line_diff, map_lines_between_commits, proportional, tags_state, text_lines,
    unique_match, verified_from, verified_nearest,
};
use crate::tree::opt_text;
use crate::text::{concat_str, decimal, decimal_string, lines_of, str_eq};

verus! {

/// How far around a deleted line the search for a mapped line with the same
/// content goes.
pub const NEAREST_RADIUS: usize = 5;

/// The line that `line` becomes under the mapping `m` (from `old_size` old
/// lines to `new_size` new ones, the texts being `old` and `new`): its mapped
/// line; else the nearest mapped line with the same content; else the only
/// new line with its content; else its proportional position when that is
/// within the `cur_len` lines shown; else the first line.
pub open spec fn chosen_line(
    m: Seq<Option<usize>>,
    old_size: int,
    new_size: int,
    old: Seq<Seq<char>>,
    new: Seq<Seq<char>>,
    line: int,
    cur_len: int,
) -> int {
    if entry(m, line) is Some {
        entry(m, line).unwrap() as int
    } else if verified_nearest(m, old_size, old, new, line, NEAREST_RADIUS as int) is Some {
        verified_nearest(m, old_size, old, new, line, NEAREST_RADIUS as int).unwrap() as int
    } else if 0 <= line < old.len() && exists|k: int| unique_match(new, old[line], k) {
        choose|k: int| unique_match(new, old[line], k)
    } else if proportional(old_size, new_size, line) < cur_len {
        proportional(old_size, new_size, line)
    } else {
        0
    }
}

/// The line that `line` becomes when the versions could not be compared:
/// its place scaled to the `cur_len` lines shown, assuming the old version
/// had at least `line + 1` lines.
pub open spec fn fallback_line(line: int, cur_len: int) -> int {
    if cur_len > 0 && line > 0 {
        let est = if line + 1 > cur_len { line + 1 } else { cur_len };
        let scaled = (line * cur_len) / est;
        if scaled < cur_len - 1 { scaled } else { cur_len - 1 }
    } else {
        0
    }
}

/// The line that `line` of commit `old_commit` becomes in commit
/// `new_commit`, from the texts of the file in the two commits (`Err` when
/// they could not be had), `cur_len` lines being shown.
pub open spec fn mapped_line(
    old_commit: Seq<char>,
    new_commit: Seq<char>,
    line: int,
    contents: Result<(Seq<char>, Seq<char>), Seq<char>>,
    cur_len: int,
) -> int {
    if old_commit == new_commit {
        line
    } else {
        match contents {
            Ok((o, n)) => {
                let ol = lines_of(o);
                let nl = lines_of(n);
                let m = tags_state(line_diff(o, n), ol.len(), nl.len()).0;
                chosen_line(m, ol.len() as int, nl.len() as int, ol, nl, line, cur_len)
            },
            Err(_) => fallback_line(line, cur_len),
        }
    }
}

/// The value of the texts handed to the line mapping.
pub open spec fn contents_view(c: Result<(String, String), String>) -> Result<(Seq<char>, Seq<char>), Seq<char>> {
    match c {
        Ok((o, n)) => Ok((o@, n@)),
        Err(e) => Err(e@),
    }
}

/// The last line of `len` lines, or 0 when there are none.
pub open spec fn last_line(len: int) -> int {
    if len > 0 { len - 1 } else { 0 }
}

/// The status message after the cursor moved from `old_line` to `new_line`.
pub open spec fn move_message(old_line: int, new_line: int) -> Seq<char> {
    if new_line == old_line {
        "Cursor position unchanged"@
    } else if new_line == 0 && old_line != 0 {
        "Line moved to top (was line "@ + decimal((old_line + 1) as nat) + ")"@
    } else {
        "Line "@ + decimal((old_line + 1) as nat) + " \u{2192} "@ + decimal((new_line + 1) as nat) + " (same content)"@
    }
}

/// Where the cursor goes, with the status message, when the shown commit
/// becomes `new_commit`: without an earlier commit `last`, at the `saved`
/// line or at the top; else at the line that `cursor` maps to; in both cases
/// kept within the `len` lines shown.
pub open spec fn smart_position(
    last: Option<Seq<char>>,
    saved: Option<usize>,
    cursor: usize,
    len: int,
    new_commit: Seq<char>,
    contents: Result<(Seq<char>, Seq<char>), Seq<char>>,
) -> (int, Seq<char>) {
    match last {
        None => match saved {
            Some(s) => {
                let c = if s < last_line(len) { s as int } else { last_line(len) };
                (c, "Restored cursor to saved position (line "@ + decimal((c + 1) as nat) + ")"@)
            },
            None => (0, "Positioned cursor at top of file"@),
        },
        Some(oc) => {
            let mapped = mapped_line(oc, new_commit, cursor as int, contents, len);
            let c = if mapped < last_line(len) { mapped } else { last_line(len) };
            (c, move_message(cursor as int, c))
        },
    }
}

proof fn lemma_mapped_line_nonneg(
    old_commit: Seq<char>,
    new_commit: Seq<char>,
    line: int,
    contents: Result<(Seq<char>, Seq<char>), Seq<char>>,
    cur_len: int,
)
    requires
        line >= 0,
        cur_len >= 0,
    ensures
        mapped_line(old_commit, new_commit, line, contents, cur_len) >= 0,
{
    if old_commit != new_commit {
        match contents {
            Ok((o, n)) => {
                let ol = lines_of(o);
                let nl = lines_of(n);
                let old_size = ol.len() as int;
                let new_size = nl.len() as int;
                if old_size != 0 {
                    let a = line * new_size;
                    assert(a >= 0) by (nonlinear_arith)
                        requires line >= 0, new_size >= 0, a == line * new_size;
                    assert(a / old_size >= 0) by (nonlinear_arith)
                        requires a >= 0, old_size > 0;
                }
            },
            Err(_) => {
                if cur_len > 0 && line > 0 {
                    let est = if line + 1 > cur_len { line + 1 } else { cur_len };
                    let a = line * cur_len;
                    assert(a >= 0) by (nonlinear_arith)
                        requires line >= 0, cur_len >= 0, a == line * cur_len;
                    assert(a / est >= 0) by (nonlinear_arith)
                        requires a >= 0, est > 0;
                }
            },
        }
    }
}

/// A line found by the content-verified search holds the text searched for.
proof fn lemma_verified_from_holds(m: Seq<Option<usize>>, old_size: int, new: Seq<Seq<char>>, t: Seq<char>, line: int, r: int, radius: int)
    ensures
        verified_from(m, old_size, new, t, line, r, radius) matches Some(k) ==> k < new.len() && new[k as int] == t,
    decreases radius + 1 - r,
{
    if !(r > radius || r < 1) {
        lemma_verified_from_holds(m, old_size, new, t, line, r + 1, radius);
    }
}

/// Where the diff maps the cursor's old line, the cursor goes to the mapped
/// line; where it does not, but a nearby mapped line holds the old line's
/// text, it goes to such a line, which holds that text; and where there is
/// none, but exactly one line of the new text equals the old line, it goes
/// to that line.
pub proof fn law_mapped_line_follows_content(
    old_commit: Seq<char>,
    new_commit: Seq<char>,
    line: int,
    o: Seq<char>,
    n: Seq<char>,
    cur_len: int,
    k: int,
)
    requires
        old_commit != new_commit,
        0 <= line,
    ensures
        ({
            let ol = lines_of(o);
            let nl = lines_of(n);
            let m = tags_state(line_diff(o, n), ol.len(), nl.len()).0;
            let r = mapped_line(old_commit, new_commit, line, Ok((o, n)), cur_len);
            &&& entry(m, line) matches Some(j) ==> r == j
            &&& (entry(m, line) is None
                && verified_nearest(m, ol.len() as int, ol, nl, line, NEAREST_RADIUS as int) is Some) ==> {
                &&& r == verified_nearest(m, ol.len() as int, ol, nl, line, NEAREST_RADIUS as int).unwrap()
                &&& 0 <= line < ol.len() && 0 <= r < nl.len() && nl[r] == ol[line]
            }
            &&& (entry(m, line) is None
                && verified_nearest(m, ol.len() as int, ol, nl, line, NEAREST_RADIUS as int) is None
                && 0 <= line < ol.len()
                && unique_match(nl, ol[line], k)) ==> r == k
        }),
{
    let ol = lines_of(o);
    let nl = lines_of(n);
    let m = tags_state(line_diff(o, n), ol.len(), nl.len()).0;
    if 0 <= line < ol.len() {
        lemma_verified_from_holds(m, ol.len() as int, nl, ol[line], line, 1, NEAREST_RADIUS as int);
    }
    if entry(m, line) is None
        && verified_nearest(m, ol.len() as int, ol, nl, line, NEAREST_RADIUS as int) is None
        && 0 <= line < ol.len()
        && unique_match(nl, ol[line], k) {
        let c = choose|j: int| unique_match(nl, ol[line], j);
        assert(unique_match(nl, ol[line], c));
        assert(c == k);
    }
}

/// Wherever the cursor was and whatever the two versions say, after a
/// commit switch the cursor is on a line of the shown file: between 0 and
/// its last line (0 when the file is empty).
pub proof fn law_cursor_stays_in_file(
    last: Option<Seq<char>>,
    saved: Option<usize>,
    cursor: usize,
    len: nat,
    new_commit: Seq<char>,
    contents: Result<(Seq<char>, Seq<char>), Seq<char>>,
)
    ensures
        0 <= smart_position(last, saved, cursor, len as int, new_commit, contents).0 <= last_line(len as int),
{
    if let Some(oc) = last {
        lemma_mapped_line_nonneg(oc, new_commit, cursor as int, contents, len as int);
    }
}

/// The scaled position used when the versions could not be compared.
fn fallback_position(line: usize, cur_len: usize) -> (r: usize)
    requires
        cur_len > 0 ==> line < usize::MAX,
    ensures
        r == fallback_line(line as int, cur_len as int),
{
    if cur_len > 0 && line > 0 {
        let est: usize = if line + 1 > cur_len { line + 1 } else { cur_len };
        let a = line as u128;
        let b = cur_len as u128;
        assert(a * b <= 0xffff_ffff_ffff_ffff * 0xffff_ffff_ffff_ffff) by (nonlinear_arith)
            requires
                a <= 0xffff_ffff_ffff_ffff,
                b <= 0xffff_ffff_ffff_ffff,
        ;
        let prod: u128 = a * b;
        let q: u128 = prod / (est as u128);
        assert(q <= line) by (nonlinear_arith)
            requires q == prod / (est as u128), prod == line * cur_len, est >= cur_len, cur_len > 0;
        let scaled = q as usize;
        if scaled < cur_len - 1 { scaled } else { cur_len - 1 }
    } else {
        0
    }
}

impl App {
    /// The line that `old_line` of `old_commit` becomes in `new_commit`, the
    /// file's text in the two commits given as `contents`.
    pub fn get_mapped_line(
        &self,
        old_commit: &str,
        new_commit: &str,
        old_line: usize,
        contents: &Result<(String, String), String>,
    ) -> (r: usize)
        requires
            old_commit@ != new_commit@ && contents is Err && self.inspector.current_content@.len() > 0
                ==> old_line < usize::MAX,
        ensures
            r == mapped_line(old_commit@, new_commit@, old_line as int, contents_view(*contents),
                self.inspector.current_content@.len() as int),
    {
        if str_eq(old_commit, new_commit) {
            return old_line;
        }
        let cur_len = self.inspector.current_content.len();
        match contents {
            Ok((o, n)) => {
                let mapping = map_lines_between_commits(old_commit, new_commit, o.as_str(), n.as_str());
                if let Some(m) = mapping.map_line(old_line) {
                    return m;
                }
                let old_lines = text_lines(o.as_str());
                let new_lines = text_lines(n.as_str());
                if let Some(k) = mapping.find_content_aware_nearest_mapped_line(old_line, NEAREST_RADIUS, &old_lines, &new_lines) {
                    return k;
                }
                match mapping.find_exact_content_match(old_line, &old_lines, &new_lines) {
                    Some(k) => {
                        proof {
                            let t = text_views(old_lines@)[old_line as int];
                            let c = choose|j: int| unique_match(text_views(new_lines@), t, j);
                            assert(unique_match(text_views(new_lines@), t, k as int));
                            assert(c == k);
                        }
                        return k;
                    },
                    None => {},
                }
                let p = mapping.proportional_map(old_line);
                if p < cur_len {
                    p
                } else {
                    0
                }
            },
            Err(_) => fallback_position(old_line, cur_len),
        }
    }

    /// Places the inspector's cursor after switching to `new_commit_hash` for
    /// `file_path`: without an earlier commit, at the line saved for the
    /// commit and file or at the top; else at the mapped line, kept within
    /// the content. Returns the status message.
    pub fn apply_smart_cursor_positioning(
        &mut self,
        new_commit_hash: &str,
        file_path: &str,
        contents: &Result<(String, String), String>,
    ) -> (r: String)
        requires
            old(self).last_commit_for_mapping is Some ==> old(self).inspector.cursor_line < usize::MAX,
        ensures
            ({
                let (c, m) = smart_position(opt_text(old(self).last_commit_for_mapping),
                    position_lookup(old(self).per_commit_cursor_positions@, new_commit_hash@, file_path@),
                    old(self).inspector.cursor_line, old(self).inspector.current_content@.len() as int,
                    new_commit_hash@, contents_view(*contents));
                &&& final(self).inspector.cursor_line == c
                &&& r@ == m
            }),
            opt_text(final(self).last_commit_for_mapping) == (if old(self).last_commit_for_mapping is None {
                None
            } else {
                Some(new_commit_hash@)
            }),
            *final(self) == (App {
                inspector: InspectorState { cursor_line: final(self).inspector.cursor_line, ..old(self).inspector },
                last_commit_for_mapping: final(self).last_commit_for_mapping,
                ..*old(self)
            }),
    {
        let len = self.inspector.current_content.len();
        let last: usize = if len > 0 { len - 1 } else { 0 };
        match &self.last_commit_for_mapping {
            None => {
                match self.restore_cursor_position(new_commit_hash, file_path) {
                    Some(saved) => {
                        let c = if saved < last { saved } else { last };
                        self.inspector.cursor_line = c;
                        let s1 = concat_str("Restored cursor to saved position (line ", decimal_string(c + 1).as_str());
                        concat_str(s1.as_str(), ")")
                    },
                    None => {
                        self.inspector.cursor_line = 0;
                        "Positioned cursor at top of file".to_string()
                    },
                }
            },
            Some(oc) => {
                let old_commit = oc.clone();
                let old_line = self.inspector.cursor_line;
                let mapped = self.get_mapped_line(old_commit.as_str(), new_commit_hash, old_line, contents);
                let fin = if mapped < last { mapped } else { last };
                self.inspector.cursor_line = fin;
                self.last_commit_for_mapping = Some(new_commit_hash.to_string());
                if fin == old_line {
                    "Cursor position unchanged".to_string()
                } else if fin == 0 && old_line != 0 {
                    let s1 = concat_str("Line moved to top (was line ", decimal_string(old_line + 1).as_str());
                    concat_str(s1.as_str(), ")")
                } else {
                    let s1 = concat_str("Line ", decimal_string(old_line + 1).as_str());
                    let s2 = concat_str(s1.as_str(), " \u{2192} ");
                    let s3 = concat_str(s2.as_str(), decimal_string(fin + 1).as_str());
                    concat_str(s3.as_str(), " (same content)")
                }
            },
        }
    }
}

} // verus!
