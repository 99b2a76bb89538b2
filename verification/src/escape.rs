//! The text escape codec of the calendar format: backslash, semicolon, comma
//! and line feed become two-character escapes on the way out, and are expanded
//! back on the way in; stray control characters are dropped on the way out.

use vstd::prelude::*;
use crate::chars::{is_ctrl_char, is_ctrl, str_to_chars, chars_to_string};

verus! {

/// Image of one character under the escape transform.
pub open spec fn esc_char(c: char) -> Seq<char> {
    if c == '\\' {
        seq!['\\', '\\']
    } else if c == ';' {
        seq!['\\', ';']
    } else if c == ',' {
        seq!['\\', ',']
    } else if c == '\n' {
        seq!['\\', 'n']
    } else if c == '\t' {
        seq!['\t']
    } else if is_ctrl_char(c) {
        Seq::empty()
    } else {
        seq![c]
    }
}

/// The escape transform, character by character: backslash doubles, `;` `,`
/// and line feed gain a leading backslash, tab stays, and every other
/// control character (carriage return and NUL among them) is dropped.
pub open spec fn escape_spec(s: Seq<char>) -> Seq<char>
    decreases s.len(),
{
    if s.len() == 0 {
        Seq::empty()
    } else {
        esc_char(s[0]) + escape_spec(s.skip(1))
    }
}

/// One left-to-right pass over `s` replacing each occurrence of the
/// two-character sequence `\` `b` by the single character `r`.
pub open spec fn unesc_pair(s: Seq<char>, b: char, r: char) -> Seq<char>
    decreases s.len(),
{
    if s.len() < 2 {
        s
    } else if s[0] == '\\' && s[1] == b {
        seq![r] + unesc_pair(s.skip(2), b, r)
    } else {
        seq![s[0]] + unesc_pair(s.skip(1), b, r)
    }
}

/// One pass collapsing each doubled backslash to a single backslash.
pub open spec fn collapse_once(s: Seq<char>) -> Seq<char> {
    unesc_pair(s, '\\', '\\')
}

pub proof fn lemma_collapse_once_len(s: Seq<char>)
    ensures
        collapse_once(s).len() <= s.len(),
        collapse_once(s).len() == s.len() ==> collapse_once(s) == s,
    decreases s.len(),
{
    if s.len() < 2 {
    } else if s[0] == '\\' && s[1] == '\\' {
        lemma_collapse_once_len(s.skip(2));
    } else {
        lemma_collapse_once_len(s.skip(1));
        if collapse_once(s).len() == s.len() {
            assert(seq![s[0]] + s.skip(1) =~= s);
        }
    }
}

/// Doubled backslashes collapsed repeatedly, until none remain.
pub open spec fn collapse_fix(s: Seq<char>) -> Seq<char>
    decreases s.len(),
    via collapse_fix_dec
{
    if collapse_once(s) == s {
        s
    } else {
        collapse_fix(collapse_once(s))
    }
}

#[via_fn]
proof fn collapse_fix_dec(s: Seq<char>) {
    lemma_collapse_once_len(s);
}

/// The unescape transform: collapse doubled backslashes to a fixed point,
/// then expand `\n` and `\N` to a line feed, `\;` to `;` and `\,` to `,`.
pub open spec fn unescape_spec(s: Seq<char>) -> Seq<char> {
    unesc_pair(
        unesc_pair(unesc_pair(unesc_pair(collapse_fix(s), 'n', '\n'), 'N', '\n'), ';', ';'),
        ',',
        ',',
    )
}

/// What must hold of `s` at index `i` for escaping to be lossless there.
pub open spec fn escape_safe_at(s: Seq<char>, i: int) -> bool {
    &&& (!is_ctrl_char(s[i]) || s[i] == '\t' || s[i] == '\n')
    &&& (s[i] == '\\' && i + 1 < s.len() ==> s[i + 1] != '\\' && s[i + 1] != 'n' && s[i + 1]
        != 'N' && s[i + 1] != ';' && s[i + 1] != ',' && s[i + 1] != '\n')
}

/// Text that survives the escape round trip: no control characters other
/// than tab and line feed, and no backslash directly before a character
/// that the unescape transform reads as part of an escape sequence.
pub open spec fn escape_safe(s: Seq<char>) -> bool {
    forall|i: int| 0 <= i < s.len() ==> #[trigger] escape_safe_at(s, i)
}

pub proof fn lemma_safe_skip(s: Seq<char>)
    requires
        escape_safe(s),
        s.len() > 0,
    ensures
        escape_safe(s.skip(1)),
{
    assert forall|i: int| 0 <= i < s.skip(1).len() implies #[trigger] escape_safe_at(
        s.skip(1),
        i,
    ) by {
        assert(escape_safe_at(s, i + 1));
        assert(s.skip(1)[i] == s[i + 1]);
        if i + 1 < s.skip(1).len() {
            assert(s.skip(1)[i + 1] == s[i + 2]);
        }
    }
}

// ------------------------------------------------------------------
// The per-character images of escaped text after each unescape pass.
// ------------------------------------------------------------------
/// Image of one escaped character after backslash collapsing.
pub open spec fn img1(c: char) -> Seq<char> {
    if c == '\\' {
        seq!['\\']
    } else if c == ';' {
        seq!['\\', ';']
    } else if c == ',' {
        seq!['\\', ',']
    } else if c == '\n' {
        seq!['\\', 'n']
    } else if c == '\t' {
        seq!['\t']
    } else if is_ctrl_char(c) {
        Seq::empty()
    } else {
        seq![c]
    }
}

/// Image after the `\n` (and `\N`) expansion passes have also run.
pub open spec fn img2(c: char) -> Seq<char> {
    if c == '\n' {
        seq!['\n']
    } else {
        img1(c)
    }
}

/// Image after the `\;` expansion pass has also run.
pub open spec fn img4(c: char) -> Seq<char> {
    if c == ';' {
        seq![';']
    } else {
        img2(c)
    }
}

/// Image after the final `\,` expansion pass.
pub open spec fn img5(c: char) -> Seq<char> {
    if c == ',' {
        seq![',']
    } else {
        img4(c)
    }
}

pub open spec fn st1(s: Seq<char>) -> Seq<char>
    decreases s.len(),
{
    if s.len() == 0 {
        Seq::empty()
    } else {
        img1(s[0]) + st1(s.skip(1))
    }
}

pub open spec fn st2(s: Seq<char>) -> Seq<char>
    decreases s.len(),
{
    if s.len() == 0 {
        Seq::empty()
    } else {
        img2(s[0]) + st2(s.skip(1))
    }
}

pub open spec fn st4(s: Seq<char>) -> Seq<char>
    decreases s.len(),
{
    if s.len() == 0 {
        Seq::empty()
    } else {
        img4(s[0]) + st4(s.skip(1))
    }
}

pub open spec fn st5(s: Seq<char>) -> Seq<char>
    decreases s.len(),
{
    if s.len() == 0 {
        Seq::empty()
    } else {
        img5(s[0]) + st5(s.skip(1))
    }
}

/// Unfolding of a pass at a head character that starts no escape pair.
proof fn lemma_unesc_cons(c: char, t: Seq<char>, b: char, r: char)
    requires
        !(c == '\\' && t.len() > 0 && t[0] == b),
    ensures
        unesc_pair(seq![c] + t, b, r) == seq![c] + unesc_pair(t, b, r),
{
    let s = seq![c] + t;
    if t.len() == 0 {
        assert(s =~= seq![c]);
        assert(unesc_pair(s, b, r) == s);
        assert(seq![c] + unesc_pair(t, b, r) =~= s);
    } else {
        assert(s[0] == c);
        assert(s[1] == t[0]);
        assert(s.skip(1) =~= t);
    }
}

/// Unfolding of a pass at a head escape pair `\` `b`.
proof fn lemma_unesc_cons_pair(t: Seq<char>, b: char, r: char)
    ensures
        unesc_pair(seq!['\\', b] + t, b, r) == seq![r] + unesc_pair(t, b, r),
{
    let s = seq!['\\', b] + t;
    assert(s[0] == '\\');
    assert(s[1] == b);
    assert(s.skip(2) =~= t);
}

/// Collapsing the escaped text takes each doubled backslash back to one.
proof fn lemma_stage1(s: Seq<char>)
    ensures
        collapse_once(escape_spec(s)) == st1(s),
    decreases s.len(),
{
    if s.len() == 0 {
    } else {
        lemma_stage1(s.skip(1));
        let c = s[0];
        let t = escape_spec(s.skip(1));
        if c == '\\' {
            assert(esc_char(c) + t =~= seq!['\\', '\\'] + t);
            lemma_unesc_cons_pair(t, '\\', '\\');
        } else if c == ';' || c == ',' || c == '\n' {
            let d: char = if c == ';' {
                ';'
            } else if c == ',' {
                ','
            } else {
                'n'
            };
            assert(esc_char(c) + t =~= seq!['\\'] + (seq![d] + t));
            lemma_unesc_cons('\\', seq![d] + t, '\\', '\\');
            lemma_unesc_cons(d, t, '\\', '\\');
            assert(seq!['\\'] + (seq![d] + collapse_once(t)) =~= img1(c) + collapse_once(t));
        } else if is_ctrl_char(c) && c != '\t' {
            assert(esc_char(c) + t =~= t);
        } else {
            assert(esc_char(c) + t =~= seq![c] + t);
            lemma_unesc_cons(c, t, '\\', '\\');
        }
    }
}

/// After one collapse of escaped safe text, no pass finds a doubled
/// backslash: collapsing has reached its fixed point.
proof fn lemma_stage1_fix(s: Seq<char>)
    requires
        escape_safe(s),
    ensures
        collapse_once(st1(s)) == st1(s),
    decreases s.len(),
{
    if s.len() == 0 {
    } else {
        lemma_safe_skip(s);
        lemma_stage1_fix(s.skip(1));
        let c = s[0];
        let t = st1(s.skip(1));
        assert(escape_safe_at(s, 0));
        if c == '\\' {
            if s.len() >= 2 {
                assert(escape_safe_at(s, 1));
                assert(s.skip(1)[0] == s[1]);
                assert(t == img1(s[1]) + st1(s.skip(1).skip(1)));
                assert(img1(s[1]) =~= seq![s[1]]);
                if t.len() > 0 {
                    assert(t[0] == s[1]);
                }
            } else {
                assert(s.skip(1).len() == 0);
            }
            lemma_unesc_cons('\\', t, '\\', '\\');
        } else if c == ';' || c == ',' || c == '\n' {
            let d: char = if c == ';' {
                ';'
            } else if c == ',' {
                ','
            } else {
                'n'
            };
            assert(img1(c) + t =~= seq!['\\'] + (seq![d] + t));
            lemma_unesc_cons('\\', seq![d] + t, '\\', '\\');
            lemma_unesc_cons(d, t, '\\', '\\');
            assert(seq!['\\'] + (seq![d] + collapse_once(t)) =~= img1(c) + collapse_once(t));
        } else if is_ctrl_char(c) && c != '\t' {
            assert(img1(c) + t =~= t);
        } else {
            assert(img1(c) + t =~= seq![c] + t);
            lemma_unesc_cons(c, t, '\\', '\\');
        }
    }
}

/// The head character of the image of safe text that begins with `\` `x`.
proof fn lemma_safe_backslash_head(s: Seq<char>)
    requires
        escape_safe(s),
        s.len() >= 2,
        s[0] == '\\',
    ensures
        s[1] != '\\' && s[1] != 'n' && s[1] != 'N' && s[1] != ';' && s[1] != ',' && s[1] != '\n',
        img1(s[1]) == seq![s[1]] || img1(s[1]) == seq!['\t'],
        img2(s[1]) == img1(s[1]),
        img4(s[1]) == img1(s[1]),
{
    assert(escape_safe_at(s, 0));
    assert(escape_safe_at(s, 1));
}

/// The `\n` pass expands exactly the images of line feeds.
proof fn lemma_stage2(s: Seq<char>)
    requires
        escape_safe(s),
    ensures
        unesc_pair(st1(s), 'n', '\n') == st2(s),
    decreases s.len(),
{
    if s.len() == 0 {
    } else {
        lemma_safe_skip(s);
        lemma_stage2(s.skip(1));
        let c = s[0];
        let t = st1(s.skip(1));
        assert(escape_safe_at(s, 0));
        if c == '\\' {
            if s.len() >= 2 {
                lemma_safe_backslash_head(s);
                assert(s.skip(1)[0] == s[1]);
                assert(t == img1(s[1]) + st1(s.skip(1).skip(1)));
                if t.len() > 0 {
                    assert(t[0] == s[1] || t[0] == '\t');
                    assert(t[0] != 'n');
                }
            } else {
                assert(s.skip(1).len() == 0);
            }
            lemma_unesc_cons('\\', t, 'n', '\n');
        } else if c == '\n' {
            assert(img1(c) + t =~= seq!['\\', 'n'] + t);
            lemma_unesc_cons_pair(t, 'n', '\n');
        } else if c == ';' || c == ',' {
            let d: char = if c == ';' {
                ';'
            } else {
                ','
            };
            assert(img1(c) + t =~= seq!['\\'] + (seq![d] + t));
            lemma_unesc_cons('\\', seq![d] + t, 'n', '\n');
            lemma_unesc_cons(d, t, 'n', '\n');
            assert(seq!['\\'] + (seq![d] + unesc_pair(t, 'n', '\n')) =~= img2(c) + unesc_pair(
                t,
                'n',
                '\n',
            ));
        } else if is_ctrl_char(c) && c != '\t' {
            assert(img1(c) + t =~= t);
        } else {
            assert(img1(c) + t =~= seq![c] + t);
            lemma_unesc_cons(c, t, 'n', '\n');
        }
    }
}

/// The `\N` pass finds nothing left to expand.
proof fn lemma_stage3(s: Seq<char>)
    requires
        escape_safe(s),
    ensures
        unesc_pair(st2(s), 'N', '\n') == st2(s),
    decreases s.len(),
{
    if s.len() == 0 {
    } else {
        lemma_safe_skip(s);
        lemma_stage3(s.skip(1));
        let c = s[0];
        let t = st2(s.skip(1));
        assert(escape_safe_at(s, 0));
        if c == '\\' {
            if s.len() >= 2 {
                lemma_safe_backslash_head(s);
                assert(s.skip(1)[0] == s[1]);
                assert(t == img2(s[1]) + st2(s.skip(1).skip(1)));
                if t.len() > 0 {
                    assert(t[0] == s[1] || t[0] == '\t');
                    assert(t[0] != 'N');
                }
            } else {
                assert(s.skip(1).len() == 0);
            }
            lemma_unesc_cons('\\', t, 'N', '\n');
        } else if c == ';' || c == ',' {
            let d: char = if c == ';' {
                ';'
            } else {
                ','
            };
            assert(img2(c) + t =~= seq!['\\'] + (seq![d] + t));
            lemma_unesc_cons('\\', seq![d] + t, 'N', '\n');
            lemma_unesc_cons(d, t, 'N', '\n');
            assert(seq!['\\'] + (seq![d] + unesc_pair(t, 'N', '\n')) =~= img2(c) + unesc_pair(
                t,
                'N',
                '\n',
            ));
        } else if is_ctrl_char(c) && c != '\t' && c != '\n' {
            assert(img2(c) + t =~= t);
        } else {
            assert(img2(c) + t =~= seq![c] + t);
            lemma_unesc_cons(c, t, 'N', '\n');
        }
    }
}

/// The `\;` pass expands exactly the images of semicolons.
proof fn lemma_stage4(s: Seq<char>)
    requires
        escape_safe(s),
    ensures
        unesc_pair(st2(s), ';', ';') == st4(s),
    decreases s.len(),
{
    if s.len() == 0 {
    } else {
        lemma_safe_skip(s);
        lemma_stage4(s.skip(1));
        let c = s[0];
        let t = st2(s.skip(1));
        assert(escape_safe_at(s, 0));
        if c == '\\' {
            if s.len() >= 2 {
                lemma_safe_backslash_head(s);
                assert(s.skip(1)[0] == s[1]);
                assert(t == img2(s[1]) + st2(s.skip(1).skip(1)));
                if t.len() > 0 {
                    assert(t[0] == s[1] || t[0] == '\t');
                    assert(t[0] != ';');
                }
            } else {
                assert(s.skip(1).len() == 0);
            }
            lemma_unesc_cons('\\', t, ';', ';');
        } else if c == ';' {
            assert(img2(c) + t =~= seq!['\\', ';'] + t);
            lemma_unesc_cons_pair(t, ';', ';');
        } else if c == ',' {
            assert(img2(c) + t =~= seq!['\\'] + (seq![','] + t));
            lemma_unesc_cons('\\', seq![','] + t, ';', ';');
            lemma_unesc_cons(',', t, ';', ';');
            assert(seq!['\\'] + (seq![','] + unesc_pair(t, ';', ';')) =~= img4(c) + unesc_pair(
                t,
                ';',
                ';',
            ));
        } else if is_ctrl_char(c) && c != '\t' && c != '\n' {
            assert(img2(c) + t =~= t);
        } else {
            assert(img2(c) + t =~= seq![c] + t);
            lemma_unesc_cons(c, t, ';', ';');
        }
    }
}

/// The `\,` pass expands exactly the images of commas.
proof fn lemma_stage5(s: Seq<char>)
    requires
        escape_safe(s),
    ensures
        unesc_pair(st4(s), ',', ',') == st5(s),
    decreases s.len(),
{
    if s.len() == 0 {
    } else {
        lemma_safe_skip(s);
        lemma_stage5(s.skip(1));
        let c = s[0];
        let t = st4(s.skip(1));
        assert(escape_safe_at(s, 0));
        if c == '\\' {
            if s.len() >= 2 {
                lemma_safe_backslash_head(s);
                assert(s.skip(1)[0] == s[1]);
                assert(t == img4(s[1]) + st4(s.skip(1).skip(1)));
                if t.len() > 0 {
                    assert(t[0] == s[1] || t[0] == '\t');
                    assert(t[0] != ',');
                }
            } else {
                assert(s.skip(1).len() == 0);
            }
            lemma_unesc_cons('\\', t, ',', ',');
        } else if c == ',' {
            assert(img4(c) + t =~= seq!['\\', ','] + t);
            lemma_unesc_cons_pair(t, ',', ',');
        } else if is_ctrl_char(c) && c != '\t' && c != '\n' {
            assert(img4(c) + t =~= t);
        } else {
            assert(img4(c) + t =~= seq![c] + t);
            lemma_unesc_cons(c, t, ',', ',');
        }
    }
}

/// On safe text, the final image is the text itself.
proof fn lemma_stage_id(s: Seq<char>)
    requires
        escape_safe(s),
    ensures
        st5(s) == s,
    decreases s.len(),
{
    if s.len() == 0 {
        assert(st5(s) =~= s);
    } else {
        lemma_safe_skip(s);
        lemma_stage_id(s.skip(1));
        assert(escape_safe_at(s, 0));
        assert(img5(s[0]) =~= seq![s[0]]);
        assert(seq![s[0]] + s.skip(1) =~= s);
    }
}

/// The escape round trip: unescaping escaped safe text gives back the text.
/// Safe means: no control characters except tab and line feed, and no
/// backslash directly before `\`, `n`, `N`, `;`, `,` or a line feed.
pub proof fn lemma_escape_unescape_round_trip(s: Seq<char>)
    requires
        escape_safe(s),
    ensures
        unescape_spec(escape_spec(s)) == s,
{
    let e = escape_spec(s);
    lemma_stage1(s);
    lemma_stage1_fix(s);
    // collapse_fix(e) == st1(s)
    if collapse_once(e) == e {
        assert(collapse_fix(e) == st1(s));
    } else {
        assert(collapse_fix(e) == collapse_fix(st1(s)));
        assert(collapse_fix(st1(s)) == st1(s));
    }
    lemma_stage2(s);
    lemma_stage3(s);
    lemma_stage4(s);
    lemma_stage5(s);
    lemma_stage_id(s);
}

// ------------------------------------------------------------------
// Executable code
// ------------------------------------------------------------------
pub proof fn lemma_escape_push(s: Seq<char>, c: char)
    ensures
        escape_spec(s.push(c)) == escape_spec(s) + esc_char(c),
    decreases s.len(),
{
    if s.len() == 0 {
        assert(s.push(c).skip(1) =~= Seq::<char>::empty());
        assert(s.push(c)[0] == c);
        assert(escape_spec(s.push(c)) == esc_char(c) + escape_spec(Seq::<char>::empty()));
        assert(esc_char(c) + Seq::<char>::empty() =~= esc_char(c));
        assert(escape_spec(s) + esc_char(c) =~= esc_char(c));
    } else {
        lemma_escape_push(s.skip(1), c);
        assert(s.push(c).skip(1) =~= s.skip(1).push(c));
        assert(s.push(c)[0] == s[0]);
        assert(escape_spec(s.push(c)) == esc_char(s[0]) + escape_spec(s.skip(1).push(c)));
        assert(esc_char(s[0]) + (escape_spec(s.skip(1)) + esc_char(c)) =~= (esc_char(s[0])
            + escape_spec(s.skip(1))) + esc_char(c));
        assert(escape_spec(s) == esc_char(s[0]) + escape_spec(s.skip(1)));
    }
}

pub(crate) fn escape_chars(v: &Vec<char>) -> (out: Vec<char>)
    ensures
        out@ == escape_spec(v@),
{
    let mut out: Vec<char> = Vec::new();
    let mut i: usize = 0;
    proof {
        assert(v@.take(0) =~= Seq::<char>::empty());
    }
    while i < v.len()
        invariant
            i <= v.len(),
            out@ == escape_spec(v@.take(i as int)),
        decreases v.len() - i,
    {
        let c = v[i];
        let ghost prev = out@;
        if c == '\\' {
            out.push('\\');
            out.push('\\');
        } else if c == ';' {
            out.push('\\');
            out.push(';');
        } else if c == ',' {
            out.push('\\');
            out.push(',');
        } else if c == '\n' {
            out.push('\\');
            out.push('n');
        } else if c == '\t' {
            out.push('\t');
        } else if is_ctrl(c) {
            // dropped
        } else {
            out.push(c);
        }
        proof {
            assert(out@ =~= prev + esc_char(c));
            lemma_escape_push(v@.take(i as int), c);
            assert(v@.take(i as int).push(c) =~= v@.take(i as int + 1));
        }
        i += 1;
    }
    proof {
        assert(v@.take(v.len() as int) =~= v@);
    }
    out
}

/// Escape raw text for emission into a calendar property value.
pub fn escape_ical_text(text: &str) -> (r: String)
    ensures
        r@ == escape_spec(text@),
{
    let v = str_to_chars(text);
    let out = escape_chars(&v);
    chars_to_string(&out)
}

fn unesc_pair_chars(v: &Vec<char>, b: char, r: char) -> (out: Vec<char>)
    ensures
        out@ == unesc_pair(v@, b, r),
{
    let mut out: Vec<char> = Vec::new();
    let mut i: usize = 0;
    proof {
        assert(v@.skip(0) =~= v@);
        assert(out@ + unesc_pair(v@, b, r) =~= unesc_pair(v@, b, r));
    }
    while i < v.len()
        invariant
            i <= v.len(),
            out@ + unesc_pair(v@.skip(i as int), b, r) == unesc_pair(v@, b, r),
        decreases v.len() - i,
    {
        let ghost rest = v@.skip(i as int);
        proof {
            assert(rest[0] == v@[i as int]);
        }
        if v[i] == '\\' && i + 1 < v.len() && v[i + 1] == b {
            out.push(r);
            proof {
                assert(rest[1] == v@[i as int + 1]);
                assert(rest.skip(2) =~= v@.skip(i as int + 2));
                assert(unesc_pair(rest, b, r) == seq![r] + unesc_pair(rest.skip(2), b, r));
                assert(out@ + unesc_pair(v@.skip(i as int + 2), b, r) =~= (out@.drop_last()
                    + unesc_pair(rest, b, r)));
            }
            i += 2;
        } else {
            out.push(v[i]);
            proof {
                assert(rest.skip(1) =~= v@.skip(i as int + 1));
                if rest.len() >= 2 {
                    assert(rest[1] == v@[i as int + 1]);
                    assert(unesc_pair(rest, b, r) == seq![rest[0]] + unesc_pair(
                        rest.skip(1),
                        b,
                        r,
                    ));
                } else {
                    assert(rest =~= seq![rest[0]]);
                    assert(unesc_pair(rest, b, r) == rest);
                    assert(unesc_pair(rest.skip(1), b, r).len() == 0);
                    assert(unesc_pair(rest, b, r) =~= seq![rest[0]] + unesc_pair(
                        rest.skip(1),
                        b,
                        r,
                    ));
                }
                assert(out@ + unesc_pair(v@.skip(i as int + 1), b, r) =~= (out@.drop_last()
                    + unesc_pair(rest, b, r)));
            }
            i += 1;
        }
    }
    proof {
        assert(v@.skip(v.len() as int).len() == 0);
        assert(out@ + unesc_pair(v@.skip(v.len() as int), b, r) =~= out@);
    }
    out
}

fn collapse_all(v: Vec<char>) -> (out: Vec<char>)
    ensures
        out@ == collapse_fix(v@),
{
    let mut cur = v;
    let ghost orig = cur@;
    loop
        invariant
            collapse_fix(cur@) == collapse_fix(orig),
        ensures
            cur@ == collapse_fix(orig),
        decreases cur@.len(),
    {
        let next = unesc_pair_chars(&cur, '\\', '\\');
        proof {
            lemma_collapse_once_len(cur@);
        }
        if next.len() == cur.len() {
            proof {
                assert(collapse_once(cur@) == cur@);
                assert(collapse_fix(cur@) == cur@);
            }
            break ;
        }
        cur = next;
    }
    cur
}

pub(crate) fn unescape_chars(v: Vec<char>) -> (out: Vec<char>)
    ensures
        out@ == unescape_spec(v@),
{
    let v = collapse_all(v);
    let v = unesc_pair_chars(&v, 'n', '\n');
    let v = unesc_pair_chars(&v, 'N', '\n');
    let v = unesc_pair_chars(&v, ';', ';');
    let v = unesc_pair_chars(&v, ',', ',');
    v
}

/// Undo the escape transform: collapse doubled backslashes, then expand the
/// `\n`, `\N`, `\;` and `\,` escapes.
pub fn unescape_ical_text(text: &str) -> (r: String)
    ensures
        r@ == unescape_spec(text@),
{
    let v = str_to_chars(text);
    let v = unescape_chars(v);
    chars_to_string(&v)
}

} // verus!
