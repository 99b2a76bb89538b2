//! The serialize/parse round trip: parsing serialized calendar text gives
//! back each record's fields, except that `created_at` ends up reflecting
//! the stamp of serialization, because the always-emitted `DTSTAMP` line
//! writes the same field later than `CREATED` and the later line wins.

use vstd::prelude::*;
use crate::chars::{first_idx, lemma_first_idx_is, is_ws_char, lemma_trim_of_trimmed, trim_spec};
use crate::dates::{
    compact_date, compact_datetime, iso_date, iso_datetime, parse_iso_date_spec,
    parse_iso_datetime_spec, due_encode_spec, created_encode_spec, due_value_spec,
    created_value_spec, lemma_iso_date_round, lemma_iso_datetime_round, lemma_compact_date_round,
    lemma_compact_datetime_round, is_digit_char,
};
use crate::emit::{priority_digit, stamp_text, Stamp, valid_stamp};
use crate::escape::{escape_spec, escape_safe, escape_safe_at, esc_char,
    lemma_escape_unescape_round_trip};
use crate::parse::{RecView, init_rec, apply_line, fold_lines, finish_rec, parse_vtodo_spec,
    priority_of};
use crate::record::TodoView;


verus! {

// ------------------------------------------------------------------
// What a record must satisfy for its fields to survive the round trip.
// ------------------------------------------------------------------
/// Free text survives a property line: it escapes losslessly and its
/// escaped form neither breaks the line nor is trimmed at the end.
pub open spec fn line_safe_text(s: Seq<char>) -> bool {
    escape_safe(s) && (s.len() > 0 ==> !is_ws_char(s.last()))
}

/// A record whose fields the round trip reproduces: a non-empty id that
/// stays on its line and untrimmed, safe title and description text, one
/// of the three priorities, and optional fields that encode exactly.
pub open spec fn serializable(r: TodoView) -> bool {
    &&& r.id.len() > 0
    &&& (forall|k: int| 0 <= k < r.id.len() ==> r.id[k] != '\n')
    &&& !is_ws_char(r.id.last())
    &&& r.title.len() > 0
    &&& line_safe_text(r.title)
    &&& line_safe_text(r.description)
    &&& (r.priority == "high"@ || r.priority == "medium"@ || r.priority == "low"@)
    &&& match r.category {
        Some(c) => line_safe_text(c),
        None => true,
    }
    &&& match r.due_date {
        Some(d) => parse_iso_date_spec(d) is Some,
        None => true,
    }
}

/// The record that parsing a serialized block gives back: every field as
/// stored, except `created_at`, which reflects the serialization stamp.
pub open spec fn parsed_form(r: TodoView, st: Stamp, source: Seq<char>) -> TodoView {
    TodoView {
        id: r.id,
        title: r.title,
        description: r.description,
        completed: r.completed,
        priority: r.priority,
        category: r.category,
        due_date: r.due_date,
        created_at: Some(
            iso_datetime(
                st.year as int,
                st.month as int,
                st.day as int,
                st.hour as int,
                st.minute as int,
                st.second as int,
            ),
        ),
        calendar_name: source,
    }
}

// ------------------------------------------------------------------
// The lines of a serialized record block.
// ------------------------------------------------------------------
pub open spec fn uid_line(r: TodoView) -> Seq<char> {
    "UID:"@ + r.id
}

pub open spec fn sum_line(r: TodoView) -> Seq<char> {
    "SUMMARY:"@ + escape_spec(r.title)
}

pub open spec fn desc_line(r: TodoView) -> Seq<char> {
    "DESCRIPTION:"@ + escape_spec(r.description)
}

pub open spec fn stat_line(r: TodoView) -> Seq<char> {
    if r.completed {
        "STATUS:COMPLETED"@
    } else {
        "STATUS:NEEDS-ACTION"@
    }
}

pub open spec fn prio_line(r: TodoView) -> Seq<char> {
    "PRIORITY:"@ + priority_digit(r.priority)
}

/// The lines of one record block strictly between its markers.
pub open spec fn body_lines(r: TodoView, st: Stamp) -> Seq<Seq<char>> {
    seq![uid_line(r), sum_line(r)] + (if r.description.len() > 0 {
        seq![desc_line(r)]
    } else {
        Seq::empty()
    }) + seq![stat_line(r), prio_line(r)] + (match r.category {
        Some(c) => seq!["CATEGORIES:"@ + escape_spec(c)],
        None => Seq::empty(),
    }) + (match r.due_date {
        Some(d) => match due_encode_spec(d) {
            Some(e) => seq!["DUE:"@ + e],
            None => Seq::empty(),
        },
        None => Seq::empty(),
    }) + (match r.created_at {
        Some(c) => match created_encode_spec(c) {
            Some(e) => seq!["CREATED:"@ + e],
            None => Seq::empty(),
        },
        None => Seq::empty(),
    }) + seq!["DTSTAMP:"@ + stamp_text(st)]
}

// ------------------------------------------------------------------
// Fold composition
// ------------------------------------------------------------------
pub proof fn lemma_fold_concat(st: RecView, a: Seq<Seq<char>>, b: Seq<Seq<char>>)
    ensures
        fold_lines(st, a + b) == fold_lines(fold_lines(st, a), b),
    decreases a.len(),
{
    if a.len() == 0 {
        assert(a + b =~= b);
    } else {
        assert((a + b)[0] == a[0]);
        assert((a + b).skip(1) =~= a.skip(1) + b);
        lemma_fold_concat(apply_line(st, a[0]), a.skip(1), b);
    }
}

pub proof fn lemma_fold_single(st: RecView, l: Seq<char>)
    ensures
        fold_lines(st, seq![l]) == apply_line(st, l),
{
    reveal_with_fuel(fold_lines, 2);
    assert(seq![l].skip(1) =~= Seq::<Seq<char>>::empty());
    assert(fold_lines(st, seq![l]) == fold_lines(apply_line(st, l), seq![l].skip(1)));
}

// ------------------------------------------------------------------
// One well-shaped property line taken apart by the parser.
// ------------------------------------------------------------------
/// A property name as the serializer writes one: non-empty, and free of
/// colon, semicolon and whitespace.
pub open spec fn plain_name(name: Seq<char>) -> bool {
    name.len() > 0 && forall|k: int|
        0 <= k < name.len() ==> name[k] != ':' && name[k] != ';' && !is_ws_char(#[trigger] name[k])
}

/// A property value as the serializer writes one: it neither breaks the
/// line nor gets trimmed from its end.
pub open spec fn plain_value(value: Seq<char>) -> bool {
    (value.len() > 0 ==> !is_ws_char(value.last())) && forall|k: int|
        0 <= k < value.len() ==> value[k] != '\n'
}

/// How the parser takes apart the line `name ':' value`.
pub proof fn lemma_line_parts(name: Seq<char>, value: Seq<char>)
    requires
        plain_name(name),
        plain_value(value),
    ensures
        ({
            let line = name + seq![':'] + value;
            &&& trim_spec(line) == line
            &&& first_idx(line, ':') == name.len()
            &&& name.len() < line.len()
            &&& line.take(name.len() as int) == name
            &&& first_idx(name, ';') == name.len()
            &&& line.skip(name.len() as int + 1) == value
        }),
{
    let line = name + seq![':'] + value;
    assert(line[0] == name[0]);
    if value.len() > 0 {
        assert(line.last() == value.last());
    } else {
        assert(line.last() == ':');
        assert(!is_ws_char(':'));
    }
    lemma_trim_of_trimmed(line);
    assert forall|j: int| 0 <= j < name.len() implies line[j] != ':' by {
        assert(line[j] == name[j]);
    }
    assert(line[name.len() as int] == ':');
    lemma_first_idx_is(line, ':', name.len() as int);
    assert(line.take(name.len() as int) =~= name);
    lemma_first_idx_is(name, ';', name.len() as int);
    assert(line.skip(name.len() as int + 1) =~= value);
}

// ------------------------------------------------------------------
// Facts about escaped text as a property value.
// ------------------------------------------------------------------
pub proof fn lemma_escape_no_newline(s: Seq<char>)
    ensures
        forall|k: int| 0 <= k < escape_spec(s).len() ==> escape_spec(s)[k] != '\n',
    decreases s.len(),
{
    if s.len() > 0 {
        lemma_escape_no_newline(s.skip(1));
        let e = esc_char(s[0]);
        let t = escape_spec(s.skip(1));
        assert forall|k: int| 0 <= k < escape_spec(s).len() implies escape_spec(s)[k] != '\n' by {
            if k < e.len() {
                assert(escape_spec(s)[k] == e[k]);
            } else {
                assert(escape_spec(s)[k] == t[k - e.len()]);
            }
        }
    }
}

pub proof fn lemma_escape_last(s: Seq<char>)
    requires
        escape_safe(s),
        s.len() > 0,
        !is_ws_char(s.last()),
    ensures
        escape_spec(s).len() > 0,
        !is_ws_char(escape_spec(s).last()),
    decreases s.len(),
{
    if s.len() == 1 {
        assert(escape_safe_at(s, 0));
        assert(s.last() == s[0]);
        assert(escape_spec(s) =~= esc_char(s[0]) + escape_spec(s.skip(1)));
        assert(escape_spec(s.skip(1)).len() == 0);
        assert(escape_spec(s) =~= esc_char(s[0]));
    } else {
        crate::escape::lemma_safe_skip(s);
        assert(s.skip(1).last() == s.last());
        lemma_escape_last(s.skip(1));
        let e = esc_char(s[0]);
        let t = escape_spec(s.skip(1));
        assert(escape_spec(s) == e + t);
        assert((e + t).last() == t.last());
    }
}

pub proof fn lemma_escaped_value(s: Seq<char>)
    requires
        line_safe_text(s),
    ensures
        plain_value(escape_spec(s)),
{
    lemma_escape_no_newline(s);
    if s.len() > 0 {
        if !is_ws_char(s.last()) {
            lemma_escape_last(s);
        }
    }
}

/// Compact-encoded dates and date-times are plain values whose characters
/// are digits, `T` or `Z`.
pub proof fn lemma_digits_value(v: Seq<char>)
    requires
        forall|k: int|
            0 <= k < v.len() ==> (is_digit_char(#[trigger] v[k]) || v[k] == 'T' || v[k] == 'Z'),
        v.len() > 0 ==> (is_digit_char(v.last()) || v.last() == 'Z'),
    ensures
        plain_value(v),
{
    assert forall|k: int| 0 <= k < v.len() implies v[k] != '\n' by {
        assert(is_digit_char(v[k]) || v[k] == 'T' || v[k] == 'Z');
    }
    if v.len() > 0 {
        assert(!is_ws_char(v.last()));
    }
}

} // verus!

verus! {

// ------------------------------------------------------------------
// Each emitted property line, as the parser applies it.
// ------------------------------------------------------------------
proof fn lemma_apply_uid(st: RecView, r: TodoView)
    requires
        serializable(r),
    ensures
        apply_line(st, uid_line(r)) == (RecView { id: r.id, ..st }),
{
    reveal_strlit("UID:");
    reveal_strlit("UID");
    let name = "UID"@;
    let value = r.id;
    assert(plain_name(name));
    assert(plain_value(value));
    lemma_line_parts(name, value);
    assert(uid_line(r) =~= name + seq![':'] + value);
    let line = name + seq![':'] + value;
    assert(line.take(name.len() as int).take(name.len() as int) =~= name);
}

proof fn lemma_apply_sum(st: RecView, r: TodoView)
    requires
        serializable(r),
    ensures
        apply_line(st, sum_line(r)) == (RecView { title: r.title, ..st }),
{
    reveal_strlit("SUMMARY:");
    reveal_strlit("SUMMARY");
    reveal_strlit("UID");
    let name = "SUMMARY"@;
    let value = escape_spec(r.title);
    assert(plain_name(name));
    lemma_escaped_value(r.title);
    lemma_line_parts(name, value);
    assert(sum_line(r) =~= name + seq![':'] + value);
    let line = name + seq![':'] + value;
    assert(line.take(name.len() as int).take(name.len() as int) =~= name);
    lemma_escape_unescape_round_trip(r.title);
}

proof fn lemma_apply_desc(st: RecView, r: TodoView)
    requires
        serializable(r),
    ensures
        apply_line(st, desc_line(r)) == (RecView { description: r.description, ..st }),
{
    reveal_strlit("DESCRIPTION:");
    reveal_strlit("DESCRIPTION");
    reveal_strlit("UID");
    reveal_strlit("SUMMARY");
    let name = "DESCRIPTION"@;
    let value = escape_spec(r.description);
    assert(plain_name(name));
    lemma_escaped_value(r.description);
    lemma_line_parts(name, value);
    assert(desc_line(r) =~= name + seq![':'] + value);
    let line = name + seq![':'] + value;
    assert(line.take(name.len() as int).take(name.len() as int) =~= name);
    lemma_escape_unescape_round_trip(r.description);
}

proof fn lemma_apply_stat(st: RecView, r: TodoView)
    ensures
        apply_line(st, stat_line(r)) == (RecView { completed: r.completed, ..st }),
{
    reveal_strlit("STATUS:COMPLETED");
    reveal_strlit("STATUS:NEEDS-ACTION");
    reveal_strlit("STATUS");
    reveal_strlit("COMPLETED");
    reveal_strlit("NEEDS-ACTION");
    reveal_strlit("UID");
    reveal_strlit("SUMMARY");
    reveal_strlit("DESCRIPTION");
    let name = "STATUS"@;
    let value: Seq<char> = if r.completed {
        "COMPLETED"@
    } else {
        "NEEDS-ACTION"@
    };
    assert(plain_name(name));
    assert(plain_value(value));
    lemma_line_parts(name, value);
    assert(stat_line(r) =~= name + seq![':'] + value);
    let line = name + seq![':'] + value;
    assert(line.take(name.len() as int).take(name.len() as int) =~= name);
    if r.completed {
        assert(value == "COMPLETED"@);
    } else {
        assert(value != "COMPLETED"@);
    }
}

proof fn lemma_apply_prio(st: RecView, r: TodoView)
    requires
        serializable(r),
    ensures
        apply_line(st, prio_line(r)) == (RecView { priority: r.priority, ..st }),
{
    reveal_strlit("PRIORITY:");
    reveal_strlit("PRIORITY");
    reveal_strlit("UID");
    reveal_strlit("SUMMARY");
    reveal_strlit("DESCRIPTION");
    reveal_strlit("STATUS");
    reveal_strlit("1");
    reveal_strlit("2");
    reveal_strlit("3");
    reveal_strlit("5");
    reveal_strlit("7");
    reveal_strlit("8");
    reveal_strlit("9");
    let name = "PRIORITY"@;
    let value = priority_digit(r.priority);
    assert(plain_name(name));
    assert(plain_value(value));
    lemma_line_parts(name, value);
    assert(prio_line(r) =~= name + seq![':'] + value);
    let line = name + seq![':'] + value;
    assert(line.take(name.len() as int).take(name.len() as int) =~= name);
    if r.priority == "high"@ {
        assert(value == "1"@);
        assert(priority_of(value) == "high"@);
    } else if r.priority == "low"@ {
        assert(value == "9"@);
        assert(priority_of(value) == "low"@);
    } else {
        assert(value == "5"@);
        assert(priority_of(value) == "medium"@);
    }
}

proof fn lemma_apply_cat(st: RecView, c: Seq<char>)
    requires
        line_safe_text(c),
    ensures
        apply_line(st, "CATEGORIES:"@ + escape_spec(c)) == (RecView { category: Some(c), ..st }),
{
    reveal_strlit("CATEGORIES:");
    reveal_strlit("CATEGORIES");
    reveal_strlit("UID");
    reveal_strlit("SUMMARY");
    reveal_strlit("DESCRIPTION");
    reveal_strlit("STATUS");
    reveal_strlit("PRIORITY");
    let name = "CATEGORIES"@;
    let value = escape_spec(c);
    assert(plain_name(name));
    lemma_escaped_value(c);
    lemma_line_parts(name, value);
    assert("CATEGORIES:"@ + escape_spec(c) =~= name + seq![':'] + value);
    let line = name + seq![':'] + value;
    assert(line.take(name.len() as int).take(name.len() as int) =~= name);
    lemma_escape_unescape_round_trip(c);
}

#[verifier::rlimit(100)]
#[verifier::spinoff_prover]
proof fn lemma_apply_due(st: RecView, d: Seq<char>)
    requires
        parse_iso_date_spec(d) is Some,
    ensures
        due_encode_spec(d) is Some,
        apply_line(st, "DUE:"@ + due_encode_spec(d)->0) == (RecView { due_date: Some(d), ..st }),
{
    reveal_strlit("DUE:");
    reveal_strlit("DUE");
    reveal_strlit("UID");
    reveal_strlit("SUMMARY");
    reveal_strlit("DESCRIPTION");
    reveal_strlit("STATUS");
    reveal_strlit("PRIORITY");
    reveal_strlit("CATEGORIES");
    let (y, m, dd) = parse_iso_date_spec(d)->0;
    let e = compact_date(y, m, dd);
    lemma_compact_date_round(y, m, dd);
    let name = "DUE"@;
    assert(plain_name(name));
    assert(plain_value(e)) by {
        lemma_digits_value(e);
    }
    lemma_line_parts(name, e);
    assert("DUE:"@ + e =~= name + seq![':'] + e);
    let line = name + seq![':'] + e;
    assert(line.take(name.len() as int).take(name.len() as int) =~= name);
    assert(due_value_spec(e) == Some(iso_date(y, m, dd)));
    lemma_iso_date_round(d);
    assert(iso_date(y, m, dd) == d);
}

#[verifier::rlimit(100)]
#[verifier::spinoff_prover]
proof fn lemma_apply_created_date(st: RecView, c: Seq<char>)
    requires
        parse_iso_date_spec(c) is Some,
    ensures
        ({
            let t = parse_iso_date_spec(c)->0;
            apply_line(st, "CREATED:"@ + compact_date(t.0, t.1, t.2)) == (RecView {
                created_at: Some(c),
                ..st
            })
        }),
{
    reveal_strlit("CREATED:");
    reveal_strlit("CREATED");
    reveal_strlit("UID");
    reveal_strlit("SUMMARY");
    reveal_strlit("DESCRIPTION");
    reveal_strlit("STATUS");
    reveal_strlit("PRIORITY");
    reveal_strlit("CATEGORIES");
    reveal_strlit("DUE");
    let name = "CREATED"@;
    let (y, m, dd) = parse_iso_date_spec(c)->0;
    let e = compact_date(y, m, dd);
    lemma_compact_date_round(y, m, dd);
    assert(plain_name(name));
    assert(plain_value(e)) by {
        lemma_digits_value(e);
    }
    lemma_line_parts(name, e);
    assert("CREATED:"@ + e =~= name + seq![':'] + e);
    let line = name + seq![':'] + e;
    assert(line.take(name.len() as int).take(name.len() as int) =~= name);
    assert(e.len() == 8);
    assert(created_value_spec(e) == Some(iso_date(y, m, dd)));
    lemma_iso_date_round(c);
}

#[verifier::rlimit(100)]
#[verifier::spinoff_prover]
proof fn lemma_apply_created_dt(st: RecView, c: Seq<char>)
    requires
        parse_iso_datetime_spec(c) is Some,
    ensures
        ({
            let t = parse_iso_datetime_spec(c)->0;
            apply_line(st, "CREATED:"@ + compact_datetime(t.0, t.1, t.2, t.3, t.4, t.5)) == (
            RecView { created_at: Some(c), ..st })
        }),
{
    reveal_strlit("CREATED:");
    reveal_strlit("CREATED");
    reveal_strlit("UID");
    reveal_strlit("SUMMARY");
    reveal_strlit("DESCRIPTION");
    reveal_strlit("STATUS");
    reveal_strlit("PRIORITY");
    reveal_strlit("CATEGORIES");
    reveal_strlit("DUE");
    let name = "CREATED"@;
    let (y, m, dd, h, mi, s) = parse_iso_datetime_spec(c)->0;
    let e = compact_datetime(y, m, dd, h, mi, s);
    lemma_compact_datetime_round(y, m, dd, h, mi, s);
    assert(plain_name(name));
    assert(plain_value(e)) by {
        assert forall|k: int| 0 <= k < e.len() implies (is_digit_char(#[trigger] e[k]) || e[k]
            == 'T' || e[k] == 'Z') by {
            if k < 8 {
            } else if k == 8 {
                assert(e[8] == 'T');
            } else if k < 15 {
            } else {
                assert(e[15] == 'Z');
            }
        }
        assert(e.last() == 'Z');
        lemma_digits_value(e);
    }
    lemma_line_parts(name, e);
    assert("CREATED:"@ + e =~= name + seq![':'] + e);
    let line = name + seq![':'] + e;
    assert(line.take(name.len() as int).take(name.len() as int) =~= name);
    assert(created_value_spec(e) == Some(iso_datetime(y, m, dd, h, mi, s)));
    lemma_iso_datetime_round(c);
}

proof fn lemma_apply_created(st: RecView, c: Seq<char>)
    requires
        created_encode_spec(c) is Some,
    ensures
        apply_line(st, "CREATED:"@ + created_encode_spec(c)->0) == (RecView {
            created_at: Some(c),
            ..st
        }),
{
    if parse_iso_date_spec(c) is Some {
        lemma_apply_created_date(st, c);
    } else {
        lemma_apply_created_dt(st, c);
    }
}

#[verifier::rlimit(100)]
#[verifier::spinoff_prover]
proof fn lemma_apply_dts(st: RecView, stp: Stamp)
    requires
        valid_stamp(stp),
    ensures
        apply_line(st, "DTSTAMP:"@ + stamp_text(stp)) == (RecView {
            created_at: Some(
                iso_datetime(
                    stp.year as int,
                    stp.month as int,
                    stp.day as int,
                    stp.hour as int,
                    stp.minute as int,
                    stp.second as int,
                ),
            ),
            ..st
        }),
{
    reveal_strlit("DTSTAMP:");
    reveal_strlit("DTSTAMP");
    reveal_strlit("UID");
    reveal_strlit("SUMMARY");
    reveal_strlit("DESCRIPTION");
    reveal_strlit("STATUS");
    reveal_strlit("PRIORITY");
    reveal_strlit("CATEGORIES");
    reveal_strlit("DUE");
    reveal_strlit("CREATED");
    let name = "DTSTAMP"@;
    let y = stp.year as int;
    let m = stp.month as int;
    let dd = stp.day as int;
    let h = stp.hour as int;
    let mi = stp.minute as int;
    let s = stp.second as int;
    let e = stamp_text(stp);
    assert(e == compact_datetime(y, m, dd, h, mi, s));
    lemma_compact_datetime_round(y, m, dd, h, mi, s);
    assert(plain_name(name));
    assert(plain_value(e)) by {
        assert forall|k: int| 0 <= k < e.len() implies (is_digit_char(#[trigger] e[k]) || e[k]
            == 'T' || e[k] == 'Z') by {
            if k < 8 {
            } else if k == 8 {
                assert(e[8] == 'T');
            } else if k < 15 {
            } else {
                assert(e[15] == 'Z');
            }
        }
        assert(e.last() == 'Z');
        lemma_digits_value(e);
    }
    lemma_line_parts(name, e);
    assert("DTSTAMP:"@ + e =~= name + seq![':'] + e);
    let line = name + seq![':'] + e;
    assert(line.take(name.len() as int).take(name.len() as int) =~= name);
    assert(created_value_spec(e) == Some(iso_datetime(y, m, dd, h, mi, s)));
}

} // verus!

verus! {

/// The fields gathered from the lines before the creation and stamp lines.
pub open spec fn front_lines(r: TodoView) -> Seq<Seq<char>> {
    seq![uid_line(r), sum_line(r)] + (if r.description.len() > 0 {
        seq![desc_line(r)]
    } else {
        Seq::empty()
    }) + seq![stat_line(r), prio_line(r)] + (match r.category {
        Some(c) => seq!["CATEGORIES:"@ + escape_spec(c)],
        None => Seq::empty(),
    }) + (match r.due_date {
        Some(d) => match due_encode_spec(d) {
            Some(e) => seq!["DUE:"@ + e],
            None => Seq::empty(),
        },
        None => Seq::empty(),
    })
}

#[verifier::rlimit(60)]
proof fn lemma_record_fold_front(r: TodoView)
    requires
        serializable(r),
    ensures
        fold_lines(init_rec(), front_lines(r)) == (RecView {
            id: r.id,
            title: r.title,
            description: r.description,
            completed: r.completed,
            priority: r.priority,
            category: r.category,
            due_date: r.due_date,
            created_at: None,
        }),
{
    let a1 = seq![uid_line(r), sum_line(r)];
    let o1: Seq<Seq<char>> = if r.description.len() > 0 {
        seq![desc_line(r)]
    } else {
        Seq::empty()
    };
    let a2 = seq![stat_line(r), prio_line(r)];
    let o2: Seq<Seq<char>> = match r.category {
        Some(c) => seq!["CATEGORIES:"@ + escape_spec(c)],
        None => Seq::empty(),
    };
    let o3: Seq<Seq<char>> = match r.due_date {
        Some(d) => match due_encode_spec(d) {
            Some(e) => seq!["DUE:"@ + e],
            None => Seq::empty(),
        },
        None => Seq::empty(),
    };
    assert(front_lines(r) == a1 + o1 + a2 + o2 + o3);
    let s0 = init_rec();
    lemma_fold_concat(s0, a1 + o1 + a2 + o2, o3);
    lemma_fold_concat(s0, a1 + o1 + a2, o2);
    lemma_fold_concat(s0, a1 + o1, a2);
    lemma_fold_concat(s0, a1, o1);
    lemma_apply_uid(s0, r);
    let s1 = RecView { id: r.id, ..s0 };
    lemma_apply_sum(s1, r);
    let s2 = RecView { title: r.title, ..s1 };
    assert(fold_lines(s0, a1) == s2) by {
        assert(a1.skip(1) =~= seq![sum_line(r)]);
        lemma_fold_single(s1, sum_line(r));
    }
    let s3 = RecView { description: r.description, ..s2 };
    if r.description.len() > 0 {
        lemma_apply_desc(s2, r);
        lemma_fold_single(s2, desc_line(r));
        assert(fold_lines(s2, o1) == s3);
    } else {
        assert(r.description =~= s2.description);
        assert(fold_lines(s2, o1) == s3);
    }
    lemma_apply_stat(s3, r);
    let s4 = RecView { completed: r.completed, ..s3 };
    lemma_apply_prio(s4, r);
    let s5 = RecView { priority: r.priority, ..s4 };
    assert(fold_lines(s3, a2) == s5) by {
        assert(a2.skip(1) =~= seq![prio_line(r)]);
        lemma_fold_single(s4, prio_line(r));
    }
    let s6 = RecView { category: r.category, ..s5 };
    match r.category {
        Some(c) => {
            lemma_apply_cat(s5, c);
            lemma_fold_single(s5, "CATEGORIES:"@ + escape_spec(c));
            assert(fold_lines(s5, o2) == s6);
        },
        None => {
            assert(fold_lines(s5, o2) == s6);
        },
    }
    let s7 = RecView { due_date: r.due_date, ..s6 };
    match r.due_date {
        Some(d) => {
            lemma_apply_due(s6, d);
            lemma_fold_single(s6, "DUE:"@ + due_encode_spec(d)->0);
            assert(fold_lines(s6, o3) == s7);
        },
        None => {
            assert(fold_lines(s6, o3) == s7);
        },
    }
}

/// The round-trip law, record by record: the property parser applied to
/// the serialized block of a serializable record gives back the record's
/// `id`, `title`, `description`, `completed`, `priority`, `category` and
/// `due_date`, attaches the given source name, and sets `created_at` to
/// the serialization stamp, since the always-present `DTSTAMP` line writes
/// that field after `CREATED` and the later line wins.
#[verifier::rlimit(60)]
pub proof fn lemma_record_round_trip(r: TodoView, st: Stamp, source: Seq<char>, fid: Seq<char>)
    requires
        serializable(r),
        valid_stamp(st),
    ensures
        parse_vtodo_spec(body_lines(r, st), source, fid) == parsed_form(r, st, source),
{
    let o4: Seq<Seq<char>> = match r.created_at {
        Some(c) => match created_encode_spec(c) {
            Some(e) => seq!["CREATED:"@ + e],
            None => Seq::empty(),
        },
        None => Seq::empty(),
    };
    let a3 = seq!["DTSTAMP:"@ + stamp_text(st)];
    assert(body_lines(r, st) == front_lines(r) + o4 + a3);
    let s0 = init_rec();
    lemma_fold_concat(s0, front_lines(r) + o4, a3);
    lemma_fold_concat(s0, front_lines(r), o4);
    lemma_record_fold_front(r);
    let s7 = fold_lines(s0, front_lines(r));
    let s8 = fold_lines(s7, o4);
    match r.created_at {
        Some(c) => {
            if created_encode_spec(c) is Some {
                lemma_apply_created(s7, c);
                lemma_fold_single(s7, "CREATED:"@ + created_encode_spec(c)->0);
                assert(s8 == (RecView { created_at: Some(c), ..s7 }));
            } else {
                assert(s8 == s7);
            }
        },
        None => {
            assert(s8 == s7);
        },
    }
    assert(s8.id == r.id && s8.title == r.title && s8.description == r.description && s8.completed
        == r.completed && s8.priority == r.priority && s8.category == r.category && s8.due_date
        == r.due_date);
    lemma_apply_dts(s8, st);
    lemma_fold_single(s8, "DTSTAMP:"@ + stamp_text(st));
    let s9 = fold_lines(s8, a3);
    assert(s9 == (RecView {
        created_at: Some(
            iso_datetime(
                st.year as int,
                st.month as int,
                st.day as int,
                st.hour as int,
                st.minute as int,
                st.second as int,
            ),
        ),
        ..s8
    }));
    assert(fold_lines(s0, body_lines(r, st)) == s9);
    assert(finish_rec(s9, source, fid) == parsed_form(r, st, source));
}

} // verus!
