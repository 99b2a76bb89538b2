//! The block scanner: split raw calendar text into lines, isolate the
//! record blocks between begin and end markers, and count begin markers.

use vstd::prelude::*;
use crate::chars::{
    first_idx, lemma_first_idx, lemma_first_idx_is, trim_spec, trim_chars, chars_eq_str,
    str_to_chars,
};

verus! {

/// A line with one trailing carriage return removed, as `str::lines`
/// removes it before yielding the line.
pub open spec fn strip_cr(s: Seq<char>) -> Seq<char> {
    if s.len() > 0 && s.last() == '\r' {
        s.drop_last()
    } else {
        s
    }
}

/// The lines of `s`: split at line feeds, one trailing carriage return
/// removed from each piece, and no empty piece after a final line feed.
pub open spec fn lines_spec(s: Seq<char>) -> Seq<Seq<char>>
    decreases s.len(),
    via lines_spec_dec
{
    if s.len() == 0 {
        Seq::empty()
    } else {
        let i = first_idx(s, '\n');
        if i == s.len() {
            seq![strip_cr(s)]
        } else {
            seq![strip_cr(s.take(i))] + lines_spec(s.skip(i + 1))
        }
    }
}

#[via_fn]
proof fn lines_spec_dec(s: Seq<char>) {
    lemma_first_idx(s, '\n');
}

pub open spec fn begin_marker() -> Seq<char> {
    "BEGIN:VTODO"@
}

pub open spec fn end_marker() -> Seq<char> {
    "END:VTODO"@
}

/// A line whose trimmed form is the begin marker of a record block.
pub open spec fn is_begin_line(l: Seq<char>) -> bool {
    trim_spec(l) == begin_marker()
}

pub open spec fn is_end_line(l: Seq<char>) -> bool {
    trim_spec(l) == end_marker()
}

/// Index of the first end-marker line at or after `k`, or `lines.len()`.
pub open spec fn end_from(lines: Seq<Seq<char>>, k: int) -> int
    decreases lines.len() - k,
{
    if k < 0 || k >= lines.len() {
        lines.len() as int
    } else if is_end_line(lines[k]) {
        k
    } else {
        end_from(lines, k + 1)
    }
}

pub proof fn lemma_end_from(lines: Seq<Seq<char>>, k: int)
    requires
        0 <= k <= lines.len(),
    ensures
        k <= end_from(lines, k) <= lines.len(),
        end_from(lines, k) < lines.len() ==> is_end_line(lines[end_from(lines, k)]),
        forall|t: int| k <= t < end_from(lines, k) ==> !is_end_line(lines[t]),
    decreases lines.len() - k,
{
    if k >= lines.len() {
    } else if is_end_line(lines[k]) {
    } else {
        lemma_end_from(lines, k + 1);
    }
}

pub proof fn lemma_end_from_is(lines: Seq<Seq<char>>, k: int, j: int)
    requires
        0 <= k <= j <= lines.len(),
        forall|t: int| k <= t < j ==> !is_end_line(lines[t]),
        j < lines.len() ==> is_end_line(lines[j]),
    ensures
        end_from(lines, k) == j,
{
    lemma_end_from(lines, k);
    let e = end_from(lines, k);
    if e < j {
        assert(!is_end_line(lines[e]));
    } else if j < e {
        assert(!is_end_line(lines[j]));
    }
}

/// The record blocks among `lines` from index `i` on: for each begin-marker
/// line with a matching end-marker line, the lines strictly between them.
/// A begin marker without a matching end marker yields no block.
pub open spec fn blocks_from(lines: Seq<Seq<char>>, i: int) -> Seq<Seq<Seq<char>>>
    decreases lines.len() - i,
    via blocks_from_dec
{
    if i < 0 || i >= lines.len() {
        Seq::empty()
    } else if is_begin_line(lines[i]) {
        let j = end_from(lines, i + 1);
        if j < lines.len() {
            seq![lines.subrange(i + 1, j)] + blocks_from(lines, j + 1)
        } else {
            Seq::empty()
        }
    } else {
        blocks_from(lines, i + 1)
    }
}

#[via_fn]
proof fn blocks_from_dec(lines: Seq<Seq<char>>, i: int) {
    if 0 <= i < lines.len() {
        lemma_end_from(lines, i + 1);
    }
}

/// The record blocks of a line sequence.
pub open spec fn blocks_of(lines: Seq<Seq<char>>) -> Seq<Seq<Seq<char>>> {
    blocks_from(lines, 0)
}

/// How many lines are begin markers.
pub open spec fn count_begin(lines: Seq<Seq<char>>) -> int
    decreases lines.len(),
{
    if lines.len() == 0 {
        0
    } else {
        (if is_begin_line(lines[0]) {
            1int
        } else {
            0int
        }) + count_begin(lines.skip(1))
    }
}

// ------------------------------------------------------------------
// Executable code
// ------------------------------------------------------------------
pub(crate) fn copy_range(v: &Vec<char>, a: usize, b: usize) -> (r: Vec<char>)
    requires
        a <= b <= v.len(),
    ensures
        r@ == v@.subrange(a as int, b as int),
{
    let mut r: Vec<char> = Vec::new();
    let mut i: usize = a;
    while i < b
        invariant
            a <= i <= b <= v.len(),
            r@ == v@.subrange(a as int, i as int),
        decreases b - i,
    {
        r.push(v[i]);
        proof {
            assert(v@.subrange(a as int, i as int).push(v@[i as int]) =~= v@.subrange(
                a as int,
                i as int + 1,
            ));
        }
        i += 1;
    }
    r
}

fn find_from(v: &Vec<char>, from: usize, c: char) -> (r: usize)
    requires
        from <= v.len(),
    ensures
        from <= r <= v.len(),
        r as int == from + first_idx(v@.skip(from as int), c),
        r < v.len() ==> v@[r as int] == c,
        forall|t: int| from <= t < r ==> v@[t] != c,
{
    let mut k: usize = from;
    while k < v.len()
        invariant
            from <= k <= v.len(),
            forall|t: int| from <= t < k ==> v@[t] != c,
        decreases v.len() - k,
    {
        if v[k] == c {
            proof {
                assert forall|t: int| 0 <= t < k - from implies v@.skip(from as int)[t] != c by {
                    assert(v@.skip(from as int)[t] == v@[from + t]);
                }
                assert(v@.skip(from as int)[k - from] == v@[k as int]);
                lemma_first_idx_is(v@.skip(from as int), c, k - from);
            }
            return k;
        }
        k += 1;
    }
    proof {
        assert forall|t: int| 0 <= t < v.len() - from implies v@.skip(from as int)[t] != c by {
            assert(v@.skip(from as int)[t] == v@[from + t]);
        }
        lemma_first_idx_is(v@.skip(from as int), c, v.len() - from as int);
    }
    v.len()
}

/// Split raw text characters into lines.
pub fn split_lines(v: &Vec<char>) -> (r: Vec<Vec<char>>)
    ensures
        r.deep_view() == lines_spec(v@),
{
    let mut r: Vec<Vec<char>> = Vec::new();
    let mut i: usize = 0;
    proof {
        assert(v@.skip(0) =~= v@);
        assert(r.deep_view() + lines_spec(v@) =~= lines_spec(v@));
    }
    while i < v.len()
        invariant
            i <= v.len(),
            r.deep_view() + lines_spec(v@.skip(i as int)) == lines_spec(v@),
        decreases v.len() - i,
    {
        let ghost rest = v@.skip(i as int);
        let j = find_from(v, i, '\n');
        proof {
            assert(first_idx(rest, '\n') == j - i);
        }
        let end = if j > i && v[j - 1] == '\r' {
            j - 1
        } else {
            j
        };
        let line = copy_range(v, i, end);
        let ghost prev = r.deep_view();
        r.push(line);
        proof {
            assert(r.deep_view() =~~= prev.push(line@));
            if j < v.len() {
                // a line feed ends this line
                assert(rest.take(j - i) =~= v@.subrange(i as int, j as int));
                assert(rest.skip(j - i + 1) =~= v@.skip(j as int + 1));
                if j > i && v@[j as int - 1] == '\r' {
                    assert(rest.take(j - i).drop_last() =~= v@.subrange(i as int, j as int - 1));
                    assert(strip_cr(rest.take(j - i)) == line@);
                } else {
                    assert(strip_cr(rest.take(j - i)) == line@);
                }
                assert(lines_spec(rest) == seq![line@] + lines_spec(v@.skip(j as int + 1)));
                assert(prev.push(line@) + lines_spec(v@.skip(j as int + 1)) =~= prev + (seq![line@]
                    + lines_spec(v@.skip(j as int + 1))));
            } else {
                // final line, no line feed
                assert(rest =~= v@.subrange(i as int, j as int));
                if j > i && v@[j as int - 1] == '\r' {
                    assert(rest.drop_last() =~= v@.subrange(i as int, j as int - 1));
                    assert(strip_cr(rest) == line@);
                } else {
                    assert(strip_cr(rest) == line@);
                }
                assert(lines_spec(rest) == seq![line@]);
                assert(v@.skip(v.len() as int).len() == 0);
                assert(prev.push(line@) + lines_spec(v@.skip(v.len() as int)) =~= prev + seq![
                    line@,
                ]);
            }
        }
        if j < v.len() {
            i = j + 1;
        } else {
            i = v.len();
        }
    }
    proof {
        assert(v@.skip(v.len() as int).len() == 0);
        assert(r.deep_view() + lines_spec(v@.skip(v.len() as int)) =~= r.deep_view());
    }
    r
}

fn line_is(l: &Vec<char>, marker: &str) -> (r: bool)
    ensures
        r == (trim_spec(l@) == marker@),
{
    let t = trim_chars(l);
    chars_eq_str(&t, marker)
}

/// Extract the record blocks of the given lines: for every begin marker
/// with a matching end marker, the lines strictly between the two.
pub fn scan_blocks(lines: &Vec<Vec<char>>) -> (r: Vec<Vec<Vec<char>>>)
    ensures
        r.deep_view() == blocks_of(lines.deep_view()),
{
    let ghost lv = lines.deep_view();
    let mut r: Vec<Vec<Vec<char>>> = Vec::new();
    let mut i: usize = 0;
    proof {
        assert(r.deep_view() + blocks_from(lv, 0) =~= blocks_from(lv, 0));
    }
    while i < lines.len()
        invariant
            i <= lines.len(),
            lv == lines.deep_view(),
            lv.len() == lines.len(),
            r.deep_view() + blocks_from(lv, i as int) == blocks_from(lv, 0),
        decreases lines.len() - i,
    {
        proof {
            assert(lv[i as int] == lines@[i as int]@);
        }
        if line_is(&lines[i], "BEGIN:VTODO") {
            let mut j = i + 1;
            let mut body: Vec<Vec<char>> = Vec::new();
            proof {
                assert(body.deep_view() =~= lv.subrange(i as int + 1, j as int));
            }
            while j < lines.len() && !line_is(&lines[j], "END:VTODO")
                invariant
                    i + 1 <= j <= lines.len(),
                    lv == lines.deep_view(),
                    lv.len() == lines.len(),
                    body.deep_view() == lv.subrange(i as int + 1, j as int),
                    forall|t: int| i + 1 <= t < j ==> !is_end_line(lv[t]),
                decreases lines.len() - j,
            {
                proof {
                    assert(lv[j as int] == lines@[j as int]@);
                }
                let line = copy_range(&lines[j], 0, lines[j].len());
                let ghost prevb = body.deep_view();
                body.push(line);
                proof {
                    assert(line@ =~= lv[j as int]);
                    assert(body.deep_view() =~~= prevb.push(lv[j as int]));
                    assert(prevb.push(lv[j as int]) =~= lv.subrange(i as int + 1, j as int + 1));
                }
                j += 1;
            }
            proof {
                if j < lines.len() {
                    assert(lv[j as int] == lines@[j as int]@);
                }
                lemma_end_from_is(lv, i as int + 1, j as int);
            }
            if j < lines.len() {
                let ghost prev = r.deep_view();
                r.push(body);
                proof {
                    assert(r.deep_view() =~~= prev.push(body.deep_view()));
                    assert(blocks_from(lv, i as int) == seq![lv.subrange(i as int + 1, j as int)]
                        + blocks_from(lv, j as int + 1));
                    assert(prev.push(body.deep_view()) + blocks_from(lv, j as int + 1) =~= prev + (
                    seq![lv.subrange(i as int + 1, j as int)] + blocks_from(lv, j as int + 1)));
                }
                i = j + 1;
            } else {
                proof {
                    assert(blocks_from(lv, i as int) =~= Seq::<Seq<Seq<char>>>::empty());
                    assert(r.deep_view() + blocks_from(lv, lines.len() as int) =~= r.deep_view()
                        + blocks_from(lv, i as int));
                }
                i = lines.len();
            }
        } else {
            i += 1;
        }
    }
    proof {
        assert(r.deep_view() + blocks_from(lv, i as int) =~= r.deep_view());
    }
    r
}

/// Count the begin markers in raw calendar text: one per `BEGIN:VTODO`
/// line, whether or not a matching end marker follows.
pub fn count_todos(text: &str) -> (r: usize)
    ensures
        r as int == count_begin(lines_spec(text@)),
{
    let v = str_to_chars(text);
    let lines = split_lines(&v);
    let ghost lv = lines.deep_view();
    let mut count: usize = 0;
    let mut i: usize = 0;
    proof {
        assert(lv.skip(0) =~= lv);
    }
    while i < lines.len()
        invariant
            i <= lines.len(),
            lv == lines.deep_view(),
            lv.len() == lines.len(),
            count <= i,
            count as int + count_begin(lv.skip(i as int)) == count_begin(lv),
        decreases lines.len() - i,
    {
        let ghost rest = lv.skip(i as int);
        proof {
            assert(lv[i as int] == lines@[i as int]@);
            assert(rest[0] == lv[i as int]);
            assert(rest.skip(1) =~= lv.skip(i as int + 1));
        }
        if line_is(&lines[i], "BEGIN:VTODO") {
            count += 1;
        }
        i += 1;
    }
    proof {
        assert(lv.skip(lines.len() as int).len() == 0);
    }
    count
}

} // verus!
