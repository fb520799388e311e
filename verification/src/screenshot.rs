//! Comparing text screenshots of the interface: line by line, trailing
//! white space ignored, and the report of the lines that differ.

use vstd::prelude::*;
use crate::text::{
    chars_eq, chars_of, concat_str, decimal, decimal_string, lines_chars, lines_of, push_char, string_of,
    trim_end, trim_end_chars, views_of,
};

verus! {

/// The lines joined with `\n` between them.
pub open spec fn joined(ls: Seq<Seq<char>>) -> Seq<char>
    decreases ls.len(),
{
    if ls.len() == 0 {
        Seq::empty()
    } else if ls.len() == 1 {
        ls[0]
    } else {
        joined(ls.drop_last()) + seq!['\n'] + ls.last()
    }
}

/// A screenshot with the trailing white space of each line removed.
pub open spec fn normalized(s: Seq<char>) -> Seq<char> {
    joined(lines_of(s).map_values(|l: Seq<char>| trim_end(l)))
}

/// The line at `i`, or the empty line past the end.
pub open spec fn line_or_empty(ls: Seq<Seq<char>>, i: int) -> Seq<char> {
    if 0 <= i < ls.len() { ls[i] } else { Seq::empty() }
}

/// The report of the lines before `n` that differ between `actual` and `expected`.
pub open spec fn diff_lines(actual: Seq<Seq<char>>, expected: Seq<Seq<char>>, n: nat) -> Seq<char>
    decreases n,
{
    if n == 0 {
        Seq::empty()
    } else {
        let i = n - 1;
        let e = line_or_empty(expected, i);
        let a = line_or_empty(actual, i);
        diff_lines(actual, expected, (n - 1) as nat) + (if e != a {
            "@@ Line "@ + decimal(n) + " @@\n-"@ + e + "\n+"@ + a + "\n"@
        } else {
            Seq::empty()
        })
    }
}

/// The report of how `actual` differs from `expected`.
pub open spec fn diff_report(actual: Seq<char>, expected: Seq<char>) -> Seq<char> {
    let al = lines_of(actual);
    let el = lines_of(expected);
    let n = if al.len() > el.len() { al.len() } else { el.len() };
    "Screenshot comparison failed:\n--- Expected\n+++ Actual\n"@ + diff_lines(al, el, n)
}

/// The screenshot with trailing white space removed from each line.
fn normalize(s: &str) -> (r: Vec<char>)
    ensures
        r@ == normalized(s@),
{
    let sc = chars_of(s);
    let lines = lines_chars(sc.as_slice());
    let ghost lv = views_of(lines@);
    let ghost tv = lv.map_values(|l: Seq<char>| trim_end(l));
    let mut out: Vec<char> = Vec::new();
    let mut i: usize = 0;
    assert(joined(tv.subrange(0, 0)) =~= Seq::<char>::empty());
    while i < lines.len()
        invariant
            i <= lines@.len(),
            lv == views_of(lines@),
            lv == lines_of(s@),
            tv == lv.map_values(|l: Seq<char>| trim_end(l)),
            out@ == joined(tv.subrange(0, i as int)),
        decreases lines@.len() - i,
    {
        let t = trim_end_chars(lines[i].as_slice());
        assert(tv[i as int] == t@);
        let ghost prev = out@;
        if i > 0 {
            out.push('\n');
        }
        let mut k: usize = 0;
        let ghost mid = out@;
        while k < t.len()
            invariant
                k <= t@.len(),
                out@ == mid + t@.subrange(0, k as int),
            decreases t@.len() - k,
        {
            out.push(t[k]);
            assert(out@ =~= mid + t@.subrange(0, k + 1));
            k = k + 1;
        }
        proof {
            let sub = tv.subrange(0, i + 1);
            assert(sub.drop_last() =~= tv.subrange(0, i as int));
            assert(sub.last() == t@);
            assert(t@.subrange(0, t@.len() as int) =~= t@);
            if i > 0 {
                assert(out@ =~= prev + seq!['\n'] + t@);
            } else {
                assert(prev =~= Seq::<char>::empty());
                assert(out@ =~= t@);
            }
        }
        i = i + 1;
    }
    assert(tv.subrange(0, tv.len() as int) =~= tv);
    out
}

/// Whether two screenshots are the same once the trailing white space of
/// every line is ignored.
pub fn compare_screenshots(actual: &str, expected: &str) -> (r: bool)
    ensures
        r == (normalized(actual@) == normalized(expected@)),
{
    let a = normalize(actual);
    let e = normalize(expected);
    chars_eq(a.as_slice(), e.as_slice())
}

/// The line at `i`, or the empty line past the end.
fn line_at(ls: &Vec<Vec<char>>, i: usize) -> (r: Vec<char>)
    ensures
        r@ == line_or_empty(views_of(ls@), i as int),
{
    if i < ls.len() {
        let mut v: Vec<char> = Vec::new();
        let l = &ls[i];
        let mut k: usize = 0;
        while k < l.len()
            invariant
                k <= l@.len(),
                v@ == l@.subrange(0, k as int),
            decreases l@.len() - k,
        {
            v.push(l[k]);
            k = k + 1;
        }
        assert(l@.subrange(0, l@.len() as int) =~= l@);
        v
    } else {
        Vec::new()
    }
}

/// The report of the lines that differ between two screenshots: each line
/// number with the expected line after `-` and the actual one after `+`.
pub fn generate_diff(actual: &str, expected: &str) -> (r: String)
    ensures
        r@ == diff_report(actual@, expected@),
{
    let ac = chars_of(actual);
    let ec = chars_of(expected);
    let al = lines_chars(ac.as_slice());
    let el = lines_chars(ec.as_slice());
    let ghost alv = views_of(al@);
    let ghost elv = views_of(el@);
    assert(alv.len() == al@.len() && elv.len() == el@.len());
    let n = if al.len() > el.len() { al.len() } else { el.len() };
    let mut diff = "Screenshot comparison failed:\n--- Expected\n+++ Actual\n".to_string();
    let ghost head = diff@;
    let mut i: usize = 0;
    assert(head + diff_lines(alv, elv, 0) =~= head);
    while i < n
        invariant
            i <= n,
            alv == views_of(al@),
            elv == views_of(el@),
            diff@ == head + diff_lines(alv, elv, i as nat),
        decreases n - i,
    {
        let e = line_at(&el, i);
        let a = line_at(&al, i);
        if !chars_eq(e.as_slice(), a.as_slice()) {
            let es = string_of(e.as_slice());
            let as_ = string_of(a.as_slice());
            let p1 = concat_str("@@ Line ", decimal_string(i + 1).as_str());
            let p2 = concat_str(p1.as_str(), " @@\n-");
            let p3 = concat_str(p2.as_str(), es.as_str());
            let p4 = concat_str(p3.as_str(), "\n+");
            let p5 = concat_str(p4.as_str(), as_.as_str());
            let p6 = concat_str(p5.as_str(), "\n");
            diff = concat_str(diff.as_str(), p6.as_str());
        }
        i = i + 1;
    }
    diff
}

} // verus!
